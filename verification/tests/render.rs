use celtchar::error::Error;
use celtchar::project::{render_loaded, Chapter, Content, Cover, Language, Loader, Part, Project};
use celtchar::render::{Html, Space, Typesetter};

/// A loader over an in-memory table; it records every document and cover
/// it is asked for, in order.
struct MapLoader {
    docs: Vec<(String, String)>,
    calls: Vec<String>,
    cover_calls: Vec<String>,
    cover_readable: bool,
}

impl MapLoader {
    fn new(docs: &[(&str, &str)]) -> MapLoader {
        MapLoader {
            docs: docs
                .iter()
                .map(|(k, v)| (String::from(*k), String::from(*v)))
                .collect(),
            calls: Vec::new(),
            cover_calls: Vec::new(),
            cover_readable: true,
        }
    }
}

impl Loader for MapLoader {
    type ProjId = String;
    type CovId = String;
    type DocId = String;

    fn load_project(&self, _id: &String) -> Result<Project<String, String>, Error> {
        Err(Error::new("no project table in this loader"))
    }

    fn load_cover(&mut self, id: &String) -> Result<Cover, Error> {
        self.cover_calls.push(id.clone());
        if self.cover_readable {
            Ok(Cover {
                extension: String::from("png"),
                content: id.as_bytes().to_vec(),
            })
        } else {
            Err(Error::new("unreadable cover"))
        }
    }

    fn load_document(&mut self, id: &String) -> Result<String, Error> {
        self.calls.push(id.clone());
        match self.docs.iter().find(|(k, _)| k == id) {
            Some((_, v)) => Ok(v.clone()),
            None => Err(Error::new("unreadable document")),
        }
    }
}

/// A compiler stub: wraps the text in a paragraph, rejects any document
/// containing "!reject".
struct StubCompiler;

impl Typesetter for StubCompiler {
    fn compile(&self, input: &str, _lang: Language) -> Result<Html, Error> {
        if input.contains("!reject") {
            Err(Error::new("rejected by the compiler"))
        } else {
            let mut h = Html::empty();
            h.open_paragraph();
            h.render_word(input);
            h.close_paragraph();
            Ok(h)
        }
    }
}

fn two_part_tree() -> Content<String> {
    Content::WithParts(vec![
        Part {
            title: Some(String::from("p1")),
            content: vec![
                Chapter {
                    title: Some(String::from("c1")),
                    content: vec![String::from("d0"), String::from("d1")],
                },
                Chapter {
                    title: None,
                    content: vec![String::from("d2")],
                },
            ],
        },
        Part {
            title: None,
            content: vec![Chapter {
                title: Some(String::from("c3")),
                content: vec![String::from("d3")],
            }],
        },
    ])
}

#[test]
fn render_preserves_shape() {
    let content = two_part_tree();
    let mut loader = MapLoader::new(&[("d0", "a"), ("d1", "b"), ("d2", "c"), ("d3", "d")]);
    let rendered = content
        .load_and_render(&mut loader, &StubCompiler, Language::En)
        .unwrap();
    match rendered {
        Content::WithParts(parts) => {
            assert_eq!(parts.len(), 2);
            assert_eq!(parts[0].title.as_deref(), Some("p1"));
            assert_eq!(parts[0].content.len(), 2);
            assert_eq!(parts[0].content[0].content.len(), 2);
            assert_eq!(parts[0].content[1].content.len(), 1);
            assert_eq!(parts[1].content.len(), 1);
            let first = parts[0].content[0].content[0].clone();
            assert_eq!(first.to_string(), "<p>a</p>");
            let last = parts[1].content[0].content[0].clone();
            assert_eq!(last.to_string(), "<p>d</p>");
        }
        Content::WithChapters(_) => panic!("shape changed"),
    }
    assert_eq!(loader.calls, vec!["d0", "d1", "d2", "d3"]);
}

#[test]
fn render_is_fail_fast_on_unreadable_document() {
    let content = two_part_tree();
    // d2 is missing: document index 2 in flattened order
    let mut loader = MapLoader::new(&[("d0", "a"), ("d1", "b"), ("d3", "d")]);
    let r = content.load_and_render(&mut loader, &StubCompiler, Language::En);
    assert!(r.is_err());
    // nothing after the failing document was loaded
    assert_eq!(loader.calls, vec!["d0", "d1", "d2"]);
}

#[test]
fn render_is_fail_fast_on_rejected_document() {
    let content = two_part_tree();
    let mut loader = MapLoader::new(&[
        ("d0", "a"),
        ("d1", "b !reject"),
        ("d2", "c"),
        ("d3", "d"),
    ]);
    let r = content.load_and_render(&mut loader, &StubCompiler, Language::En);
    assert!(r.is_err());
    assert_eq!(loader.calls, vec!["d0", "d1"]);
}

#[test]
fn html_sink_policy() {
    let mut h = Html::empty();
    h.open_story();
    h.open_paragraph();
    h.open_dialogue(Some("alice"));
    h.render_word("hi");
    h.render_space(Space::Nbsp);
    h.render_mark("!");
    h.close_dialogue();
    h.between_dialogue();
    h.open_emph();
    h.render_word("so");
    h.close_emph();
    h.render_space(Space::NoSpace);
    h.open_thought(None);
    h.render_word("hm");
    h.close_thought();
    h.close_paragraph();
    h.open_aside(Some("letter"));
    h.render_illformed("??");
    h.close_aside();
    h.close_story();
    assert_eq!(
        h.to_string(),
        "<div class=\"story\"><p><span class=\"dialogue by-alice\">hi&nbsp;!</span></p><p>\
         <em>so</em><span class=\"thought\">hm</span></p><div class=\"aside letter\">??</div></div>"
    );
}

#[test]
fn project_load_and_render_reports_missing_project() {
    let mut loader = MapLoader::new(&[]);
    let r = Project::load_and_render(&String::from("root"), &mut loader, &StubCompiler);
    assert!(r.is_err());
}

fn loaded_descriptor(cover: Option<&str>) -> Project<String, String> {
    Project {
        author: String::from("ann"),
        title: String::from("a book"),
        description: Some(String::from("about things")),
        cover: cover.map(String::from),
        numbering: Some(true),
        language: Language::En,
        content: Content::WithChapters(vec![Chapter {
            title: Some(String::from("c1")),
            content: vec![String::from("d0")],
        }]),
    }
}

#[test]
fn render_loaded_copies_fields_and_cover() {
    let mut loader = MapLoader::new(&[("d0", "a")]);
    let rendered = render_loaded(
        loaded_descriptor(Some("art.png")),
        &mut loader,
        &StubCompiler,
    )
    .unwrap();
    assert_eq!(rendered.author, "ann");
    assert_eq!(rendered.title, "a book");
    assert_eq!(rendered.description.as_deref(), Some("about things"));
    assert_eq!(rendered.numbering, Some(true));
    assert_eq!(rendered.language, Language::En);
    let cover = rendered.cover.unwrap();
    assert_eq!(cover.extension, "png");
    assert_eq!(cover.content, b"art.png".to_vec());
    assert_eq!(loader.cover_calls, vec!["art.png"]);
}

#[test]
fn render_loaded_without_cover_fetches_none() {
    let mut loader = MapLoader::new(&[("d0", "a")]);
    let rendered = render_loaded(loaded_descriptor(None), &mut loader, &StubCompiler).unwrap();
    assert!(rendered.cover.is_none());
    assert!(loader.cover_calls.is_empty());
}

#[test]
fn render_loaded_aborts_on_cover_failure() {
    let mut loader = MapLoader::new(&[("d0", "a")]);
    loader.cover_readable = false;
    let r = render_loaded(
        loaded_descriptor(Some("art.png")),
        &mut loader,
        &StubCompiler,
    );
    assert!(r.is_err());
    // the failed cover aborts the build before any document is loaded
    assert_eq!(loader.cover_calls, vec!["art.png"]);
    assert!(loader.calls.is_empty());
}
