use std::io::Read;

use celtchar::epub::{EpubWriter, Zip};
use celtchar::error::Error;
use celtchar::project::{Chapter, Content, Cover, Language, Project};
use celtchar::render::Html;
use celtchar::writer::ResourceReader;

struct StubResources;

impl ResourceReader for StubResources {
    fn read_resource(&self, src: &str) -> Result<Vec<u8>, Error> {
        Ok(src.as_bytes().to_vec())
    }
}

fn engine() -> tera::Tera {
    let mut tera = tera::Tera::default();
    tera.add_raw_template("epub/container.xml", "<container/>").unwrap();
    tera.add_raw_template("epub/chapter.xhtml", "<n>{{ number }}</n>").unwrap();
    tera.add_raw_template("epub/main.css", "body {}").unwrap();
    tera.add_raw_template("epub/content.opf", "{{ files | length }} files").unwrap();
    tera.add_raw_template("epub/toc.ncx", "{{ chapters | length }} chapters").unwrap();
    tera
}

fn book(cover: Option<Cover>) -> Project<Cover, Html> {
    Project {
        author: String::from("ann"),
        title: String::from("a book"),
        description: None,
        cover,
        numbering: Some(true),
        language: Language::En,
        content: Content::WithChapters(vec![
            Chapter {
                title: Some(String::from("first")),
                content: vec![Html::from_string(String::from("<p>one</p>"))],
            },
            Chapter {
                title: None,
                content: vec![Html::from_string(String::from("<p>two</p>"))],
            },
        ]),
    }
}

#[test]
fn archive_holds_every_entry_once() {
    let mut zip_writer = Zip::init(engine(), StubResources);
    zip_writer
        .generate_epub(
            &book(Some(Cover {
                extension: String::from("png"),
                content: vec![1, 2, 3, 4],
            })),
            "assets",
        )
        .unwrap();
    let bytes = zip_writer.finish().unwrap();

    let mut archive = zip::ZipArchive::new(std::io::Cursor::new(bytes)).unwrap();
    let names: Vec<String> = (0..archive.len())
        .map(|i| archive.by_index(i).unwrap().name().to_string())
        .collect();

    // no name appears twice
    for n in &names {
        assert_eq!(names.iter().filter(|m| *m == n).count(), 1, "duplicate {}", n);
    }

    // each distinct parent directory got exactly one directory entry
    let dirs: Vec<&String> = names.iter().filter(|n| n.ends_with('/')).collect();
    for d in &["META-INF/", "OEBPS/Text/", "OEBPS/Style/", "OEBPS/", "OEBPS/Fonts/"] {
        assert_eq!(
            dirs.iter().filter(|n| n.as_str() == *d).count(),
            1,
            "directory {} must be created exactly once",
            d
        );
    }
    assert_eq!(dirs.len(), 5);

    // the file entries of the fixed layout are present
    for f in &[
        "mimetype",
        "META-INF/container.xml",
        "OEBPS/Text/0.xhtml",
        "OEBPS/Text/1.xhtml",
        "OEBPS/Style/main.css",
        "OEBPS/cover.png",
        "OEBPS/Fonts/et-book-roman-line-figures.ttf",
        "OEBPS/content.opf",
        "OEBPS/toc.ncx",
    ] {
        assert!(names.iter().any(|n| n == f), "missing {}", f);
    }

    let mut mimetype = String::new();
    archive.by_name("mimetype").unwrap().read_to_string(&mut mimetype).unwrap();
    assert_eq!(mimetype, "application/epub+zip");

    let mut cover = Vec::new();
    archive.by_name("OEBPS/cover.png").unwrap().read_to_end(&mut cover).unwrap();
    assert_eq!(cover, vec![1, 2, 3, 4]);

    let mut chapter = String::new();
    archive.by_name("OEBPS/Text/0.xhtml").unwrap().read_to_string(&mut chapter).unwrap();
    assert_eq!(chapter, "<n>1</n>");

    let mut opf = String::new();
    archive.by_name("OEBPS/content.opf").unwrap().read_to_string(&mut opf).unwrap();
    assert_eq!(opf, "2 files");

    let mut font = Vec::new();
    archive
        .by_name("OEBPS/Fonts/et-book-bold-line-figures.ttf")
        .unwrap()
        .read_to_end(&mut font)
        .unwrap();
    assert_eq!(font, b"assets/fonts/et-book-bold-line-figures.ttf".to_vec());
}

#[test]
fn archive_build_fails_on_missing_template() {
    let mut tera = tera::Tera::default();
    tera.add_raw_template("epub/container.xml", "<container/>").unwrap();
    let mut zip_writer = Zip::init(tera, StubResources);
    let r = zip_writer.generate_epub(&book(None), "assets");
    assert!(r.is_err());
}
