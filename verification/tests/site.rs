use celtchar::project::{Chapter, Content, Cover, Language, Part, Project};
use celtchar::render::Html;
use celtchar::writer::{Memory, Record, TemplateValue};
use celtchar::wstatic::Static;

fn rendered_chapter(i: usize) -> Chapter<Html> {
    Chapter {
        title: Some(format!("chapter {}", i)),
        content: vec![Html::from_string(format!("<p>{}</p>", i))],
    }
}

fn part(title: &str, n: usize) -> Part<Html> {
    Part {
        title: Some(String::from(title)),
        content: (0..n).map(rendered_chapter).collect(),
    }
}

fn site_project(content: Content<Html>) -> Project<Cover, Html> {
    Project {
        author: String::from("ann"),
        title: String::from("a book"),
        description: Some(String::from("about things")),
        cover: None,
        numbering: Some(false),
        language: Language::Fr,
        content,
    }
}

fn path_of(r: &Record) -> &str {
    match r {
        Record::Bytes { path, .. } => path,
        Record::Copy { path, .. } => path,
        Record::Template { path, .. } => path,
    }
}

fn ctx_value<'a>(r: &'a Record, key: &str) -> &'a TemplateValue {
    match r {
        Record::Template { ctx, .. } => {
            &ctx.entries
                .iter()
                .find(|(k, _)| k == key)
                .expect("missing context key")
                .1
        }
        _ => panic!("not a template record"),
    }
}

#[test]
fn static_site_part_pagination() {
    let project = site_project(Content::WithParts(vec![
        part("one", 2),
        part("two", 3),
        part("three", 1),
    ]));
    let mut site = Static::init(Memory::new(), false);
    site.generate_static_website(&project, "assets").unwrap();

    let paths: Vec<&str> = site.writer.records.iter().map(path_of).collect();
    assert_eq!(
        paths,
        vec![
            "index.html",
            "p0.html",
            "0.html",
            "1.html",
            "p1.html",
            "2.html",
            "3.html",
            "4.html",
            "p2.html",
            "5.html",
            "style.css",
        ]
    );

    // chapters of part 0: no previous part, the next part is 1
    let c0 = &site.writer.records[2];
    assert_eq!(ctx_value(c0, "previous_part"), &TemplateValue::Null);
    assert_eq!(ctx_value(c0, "next_part"), &TemplateValue::UInt(1));
    assert_eq!(ctx_value(c0, "offset"), &TemplateValue::UInt(0));
    assert_eq!(ctx_value(c0, "chapters_number"), &TemplateValue::UInt(2));

    // chapters of part 1 carry the running offset
    let c2 = &site.writer.records[5];
    assert_eq!(ctx_value(c2, "offset"), &TemplateValue::UInt(2));
    assert_eq!(ctx_value(c2, "number"), &TemplateValue::UInt(1));
    assert_eq!(ctx_value(c2, "previous_part"), &TemplateValue::UInt(0));
    assert_eq!(ctx_value(c2, "next_part"), &TemplateValue::UInt(2));

    // chapters of the last part have no next part
    let c5 = &site.writer.records[9];
    assert_eq!(ctx_value(c5, "previous_part"), &TemplateValue::UInt(1));
    assert_eq!(ctx_value(c5, "next_part"), &TemplateValue::Null);

    // part pages carry 1-based numbers, sizes, the part count and offset
    let p1 = &site.writer.records[4];
    assert_eq!(ctx_value(p1, "number"), &TemplateValue::UInt(2));
    assert_eq!(ctx_value(p1, "chapters_number"), &TemplateValue::UInt(3));
    assert_eq!(ctx_value(p1, "parts_number"), &TemplateValue::UInt(3));
    assert_eq!(ctx_value(p1, "offset"), &TemplateValue::UInt(2));

    // the table of contents carries the nested part list with global indices
    let index = &site.writer.records[0];
    match ctx_value(index, "parts") {
        TemplateValue::List(parts) => {
            assert_eq!(parts.len(), 3);
            match &parts[1] {
                TemplateValue::Obj(fields) => {
                    assert_eq!(fields[0].1, TemplateValue::UInt(1));
                    match &fields[2].1 {
                        TemplateValue::List(chs) => {
                            assert_eq!(chs.len(), 3);
                            match &chs[0] {
                                TemplateValue::Obj(f) => {
                                    assert_eq!(f[0].1, TemplateValue::UInt(2))
                                }
                                _ => panic!("chapter item must be an object"),
                            }
                        }
                        _ => panic!("part chapters must be a list"),
                    }
                }
                _ => panic!("part item must be an object"),
            }
        }
        _ => panic!("index must carry parts"),
    }
}

#[test]
fn static_site_flat_chapters_have_no_part_navigation() {
    let project = site_project(Content::WithChapters(vec![
        rendered_chapter(0),
        rendered_chapter(1),
    ]));
    let mut site = Static::init(Memory::new(), false);
    site.generate_static_website(&project, "assets").unwrap();
    let paths: Vec<&str> = site.writer.records.iter().map(path_of).collect();
    assert_eq!(paths, vec!["index.html", "0.html", "1.html", "style.css"]);
    let c0 = &site.writer.records[1];
    assert_eq!(ctx_value(c0, "previous_part"), &TemplateValue::Null);
    assert_eq!(ctx_value(c0, "next_part"), &TemplateValue::Null);
    assert_eq!(ctx_value(c0, "offset"), &TemplateValue::UInt(0));
}

#[test]
fn static_site_body_only_skips_stylesheet() {
    let project = site_project(Content::WithChapters(vec![rendered_chapter(0)]));
    let mut site = Static::init(Memory::new(), true);
    site.generate_static_website(&project, "assets").unwrap();
    let paths: Vec<&str> = site.writer.records.iter().map(path_of).collect();
    assert_eq!(paths, vec!["index.html", "0.html"]);
    assert_eq!(
        ctx_value(&site.writer.records[0], "body_only"),
        &TemplateValue::Bool(true)
    );
}

#[test]
fn static_site_stylesheet_is_copied_from_assets() {
    let project = site_project(Content::WithChapters(vec![rendered_chapter(0)]));
    let mut site = Static::init(Memory::new(), false);
    site.generate_static_website(&project, "the-assets").unwrap();
    match site.writer.records.last().unwrap() {
        Record::Copy { path, src } => {
            assert_eq!(path, "style.css");
            assert_eq!(src, "the-assets/templates/static/style.css");
        }
        _ => panic!("the stylesheet must be copied"),
    }
}
