use celtchar::epub::EpubWriter;
use celtchar::project::Part;
use celtchar::project::{Chapter, Content, Cover, Language, Project};
use celtchar::render::Html;
use celtchar::writer::{Memory, Record, TemplateValue};

fn rendered_chapter(title: Option<&str>, body: &str) -> Chapter<Html> {
    Chapter {
        title: title.map(String::from),
        content: vec![Html::from_string(String::from(body))],
    }
}

fn sample_project(cover: Option<Cover>) -> Project<Cover, Html> {
    Project {
        author: String::from("ann"),
        title: String::from("a book"),
        description: None,
        cover,
        numbering: Some(true),
        language: Language::En,
        content: Content::WithChapters(vec![
            rendered_chapter(Some("first"), "<p>one</p>"),
            rendered_chapter(None, "<p>two</p>"),
        ]),
    }
}

fn path_of(r: &Record) -> &str {
    match r {
        Record::Bytes { path, .. } => path,
        Record::Copy { path, .. } => path,
        Record::Template { path, .. } => path,
    }
}

fn ctx_value<'a>(r: &'a Record, key: &str) -> &'a TemplateValue {
    match r {
        Record::Template { ctx, .. } => {
            &ctx.entries
                .iter()
                .find(|(k, _)| k == key)
                .expect("missing context key")
                .1
        }
        _ => panic!("not a template record"),
    }
}

#[test]
fn epub_build_without_cover() {
    let project = sample_project(None);
    let mut m = Memory::new();
    m.generate_epub(&project, "/usr/share/assets").unwrap();

    // two chapters, no cover: 2 + 8 entries
    assert_eq!(m.records.len(), 10);
    let paths: Vec<&str> = m.records.iter().map(path_of).collect();
    assert_eq!(
        paths,
        vec![
            "mimetype",
            "META-INF/container.xml",
            "OEBPS/Text/0.xhtml",
            "OEBPS/Text/1.xhtml",
            "OEBPS/Style/main.css",
            "OEBPS/Fonts/et-book-roman-line-figures.ttf",
            "OEBPS/Fonts/et-book-bold-line-figures.ttf",
            "OEBPS/Fonts/et-book-display-italic-old-style-figures.ttf",
            "OEBPS/content.opf",
            "OEBPS/toc.ncx",
        ]
    );

    match &m.records[0] {
        Record::Bytes { data, .. } => assert_eq!(data, b"application/epub+zip"),
        _ => panic!("mimetype must be raw bytes"),
    }

    // chapter pages carry 1-based numbers in flattened order
    assert_eq!(ctx_value(&m.records[2], "number"), &TemplateValue::UInt(1));
    assert_eq!(ctx_value(&m.records[3], "number"), &TemplateValue::UInt(2));
    assert_eq!(
        ctx_value(&m.records[2], "language"),
        &TemplateValue::Str(String::from("En"))
    );
    assert_eq!(
        ctx_value(&m.records[2], "numbering"),
        &TemplateValue::Bool(true)
    );

    // the manifest lists the chapter files in ascending spine order,
    // the three fonts, and no cover
    let opf = &m.records[8];
    assert_eq!(
        ctx_value(opf, "files"),
        &TemplateValue::List(vec![TemplateValue::UInt(0), TemplateValue::UInt(1)])
    );
    match ctx_value(opf, "fonts") {
        TemplateValue::List(fonts) => assert_eq!(fonts.len(), 3),
        _ => panic!("fonts must be a list"),
    }
    assert_eq!(ctx_value(opf, "cover_extension"), &TemplateValue::Null);

    // the navigation document lists 0-based indices with titles
    let ncx = &m.records[9];
    match ctx_value(ncx, "chapters") {
        TemplateValue::List(chaps) => {
            assert_eq!(chaps.len(), 2);
            match &chaps[0] {
                TemplateValue::Obj(fields) => {
                    assert_eq!(fields[0].1, TemplateValue::UInt(0));
                    assert_eq!(fields[1].1, TemplateValue::Str(String::from("first")));
                }
                _ => panic!("chapter item must be an object"),
            }
        }
        _ => panic!("chapters must be a list"),
    }

    // font copies come from the assets directory
    match &m.records[5] {
        Record::Copy { src, .. } => {
            assert_eq!(src, "/usr/share/assets/fonts/et-book-roman-line-figures.ttf")
        }
        _ => panic!("font must be copied"),
    }
}

#[test]
fn epub_cover_round_trip() {
    let cover = Cover {
        extension: String::from("png"),
        content: vec![137, 80, 78, 71, 13, 10],
    };
    let project = sample_project(Some(cover));
    let mut m = Memory::new();
    m.generate_epub(&project, "assets").unwrap();

    assert_eq!(m.records.len(), 11);
    let cover_records: Vec<&Record> = m
        .records
        .iter()
        .filter(|r| path_of(r) == "OEBPS/cover.png")
        .collect();
    assert_eq!(cover_records.len(), 1);
    match cover_records[0] {
        Record::Bytes { data, .. } => assert_eq!(data, &vec![137u8, 80, 78, 71, 13, 10]),
        _ => panic!("the cover must be written byte for byte"),
    }
    let opf = m
        .records
        .iter()
        .find(|r| path_of(r) == "OEBPS/content.opf")
        .unwrap();
    assert_eq!(
        ctx_value(opf, "cover_extension"),
        &TemplateValue::Str(String::from("png"))
    );
}

#[test]
fn epub_chapter_count_follows_flattened_tree() {
    let part = |n: usize| Part {
        title: None,
        content: (0..n)
            .map(|i| rendered_chapter(None, &format!("<p>{}</p>", i)))
            .collect(),
    };
    let project = Project {
        author: String::from("ann"),
        title: String::from("a book"),
        description: None,
        cover: None,
        numbering: None,
        language: Language::Fr,
        content: Content::WithParts(vec![part(2), part(3), part(1)]),
    };
    let mut m = Memory::new();
    m.generate_epub(&project, "assets").unwrap();
    let chapter_paths: Vec<&str> = m
        .records
        .iter()
        .map(path_of)
        .filter(|p| p.starts_with("OEBPS/Text/"))
        .collect();
    assert_eq!(
        chapter_paths,
        vec![
            "OEBPS/Text/0.xhtml",
            "OEBPS/Text/1.xhtml",
            "OEBPS/Text/2.xhtml",
            "OEBPS/Text/3.xhtml",
            "OEBPS/Text/4.xhtml",
            "OEBPS/Text/5.xhtml",
        ]
    );
}
