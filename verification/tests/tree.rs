use celtchar::project::{Chapter, Content, Part};

fn chapter(title: &str, docs: &[&str]) -> Chapter<String> {
    Chapter {
        title: Some(String::from(title)),
        content: docs.iter().map(|d| String::from(*d)).collect(),
    }
}

#[test]
fn flatten_with_chapters_keeps_order() {
    let content = Content::WithChapters(vec![
        chapter("one", &["a"]),
        chapter("two", &["b"]),
        chapter("three", &["c"]),
    ]);
    let flat = content.chapters();
    assert_eq!(flat.len(), 3);
    assert_eq!(flat[0].title.as_deref(), Some("one"));
    assert_eq!(flat[1].title.as_deref(), Some("two"));
    assert_eq!(flat[2].title.as_deref(), Some("three"));
}

#[test]
fn flatten_with_parts_is_depth_first() {
    let content = Content::WithParts(vec![
        Part {
            title: Some(String::from("part one")),
            content: vec![chapter("one", &["a"]), chapter("two", &["b"])],
        },
        Part {
            title: None,
            content: vec![chapter("three", &["c"])],
        },
    ]);
    let flat = content.chapters();
    assert_eq!(flat.len(), 3);
    assert_eq!(flat[0].title.as_deref(), Some("one"));
    assert_eq!(flat[1].title.as_deref(), Some("two"));
    assert_eq!(flat[2].title.as_deref(), Some("three"));
}

#[test]
fn flatten_is_part_insensitive() {
    let chapters = vec![
        chapter("one", &["a"]),
        chapter("two", &["b"]),
        chapter("three", &["c"]),
    ];
    let with_parts = Content::WithParts(vec![
        Part {
            title: None,
            content: vec![chapters[0].clone(), chapters[1].clone()],
        },
        Part {
            title: None,
            content: vec![chapters[2].clone()],
        },
    ]);
    let with_chapters = Content::WithChapters(chapters.clone());
    let a: Vec<_> = with_parts.chapters().into_iter().cloned().collect();
    let b: Vec<_> = with_chapters.chapters().into_iter().cloned().collect();
    assert_eq!(a, b);
}

#[test]
fn flatten_of_empty_parts() {
    let content: Content<String> = Content::WithParts(vec![]);
    assert_eq!(content.chapters().len(), 0);
}
