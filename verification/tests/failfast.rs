use celtchar::epub::EpubWriter;
use celtchar::error::Error;
use celtchar::project::{Chapter, Content, Cover, Language, Project};
use celtchar::render::Html;
use celtchar::writer::{BookWriter, TemplateContext};
use celtchar::wstatic::Static;

/// A sink that records every path it accepts and fails from a chosen write
/// onward.
struct BrittleWriter {
    accepted: Vec<String>,
    fail_from: usize,
}

impl BrittleWriter {
    fn new(fail_from: usize) -> BrittleWriter {
        BrittleWriter {
            accepted: Vec::new(),
            fail_from,
        }
    }

    fn accept(&mut self, dst: &str) -> Result<(), Error> {
        if self.accepted.len() >= self.fail_from {
            Err(Error::new("the sink is full"))
        } else {
            self.accepted.push(String::from(dst));
            Ok(())
        }
    }
}

impl BookWriter for BrittleWriter {
    fn write_bytes(&mut self, dst: &str, _input: &[u8]) -> Result<(), Error> {
        self.accept(dst)
    }

    fn write_file(&mut self, dst: &str, _src: &str) -> Result<(), Error> {
        self.accept(dst)
    }

    fn write_template(
        &mut self,
        dst: &str,
        _template: &str,
        _ctx: &TemplateContext,
    ) -> Result<(), Error> {
        self.accept(dst)
    }
}

fn two_chapter_book() -> Project<Cover, Html> {
    Project {
        author: String::from("ann"),
        title: String::from("a book"),
        description: None,
        cover: None,
        numbering: None,
        language: Language::En,
        content: Content::WithChapters(vec![
            Chapter {
                title: None,
                content: vec![Html::from_string(String::from("<p>one</p>"))],
            },
            Chapter {
                title: None,
                content: vec![Html::from_string(String::from("<p>two</p>"))],
            },
        ]),
    }
}

#[test]
fn epub_build_stops_at_first_failed_write() {
    let project = two_chapter_book();
    let mut w = BrittleWriter::new(3);
    let r = w.generate_epub(&project, "assets");
    assert!(r.is_err());
    // the first three writes stand; nothing after the failed one was tried
    assert_eq!(
        w.accepted,
        vec!["mimetype", "META-INF/container.xml", "OEBPS/Text/0.xhtml"]
    );
}

#[test]
fn static_build_stops_at_first_failed_write() {
    let project = two_chapter_book();
    let mut site = Static::init(BrittleWriter::new(2), false);
    let r = site.generate_static_website(&project, "assets");
    assert!(r.is_err());
    assert_eq!(site.writer.accepted, vec!["index.html", "0.html"]);
}
