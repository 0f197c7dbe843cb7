use scrap_markdown::model::{Comment, ThreadRecord};
use scrap_markdown::render::{render, EmptyThreadError};
use scrap_markdown::store::Config;

fn one_comment_thread(title: &str) -> ThreadRecord {
    ThreadRecord {
        title: title.to_string(),
        comments: vec![Comment::new(
            "a".to_string(),
            "2023-01-01T00:00:00".to_string(),
            "# h".to_string(),
            vec![],
        )],
    }
}

#[test]
fn default_directories() {
    let config = Config::default();
    assert_eq!(config.store_dir, "scraps");
    assert_eq!(config.output_dir, "markdown");
}

#[test]
fn record_lies_under_its_slug() {
    let config = Config::default();
    assert_eq!(config.record_path("abc123"), "scraps/abc123.json");
    let other = Config::new("cache".to_string(), "out".to_string());
    assert_eq!(other.record_path("abc123"), "cache/abc123.json");
}

#[test]
fn named_document_path_takes_the_name_as_it_is() {
    let config = Config::new("cache".to_string(), "out".to_string());
    assert_eq!(config.named_document_path("note"), "out/note.md");
    assert_eq!(config.named_document_path(""), "out/.md");
}

#[test]
fn title_is_made_safe_for_the_path() {
    let config = Config::default();
    assert_eq!(config.document_path("a/b"), "markdown/ab.md");
    assert_eq!(config.document_path("what? <now>: \"this\"|that*"), "markdown/what now thisthat.md");
    assert_eq!(config.document_path("tab\there\u{0}\u{85}"), "markdown/tabhere.md");
    assert_eq!(config.document_path("plain title"), "markdown/plain title.md");
    assert_eq!(config.document_path("メモ"), "markdown/メモ.md");
}

#[test]
fn long_title_is_cut_to_255_bytes() {
    let config = Config::new("s".to_string(), "o".to_string());
    let path = config.document_path(&"a".repeat(300));
    assert_eq!(path, format!("o/{}.md", "a".repeat(255)));
}

#[test]
fn document_comes_with_its_path() {
    let config = Config::default();
    let record = one_comment_thread("My: thread");
    let document = config.document_for(&record).unwrap();
    assert_eq!(document.path, "markdown/My thread.md");
    assert_eq!(Ok(document.text), render(&record));
}

#[test]
fn empty_thread_has_nothing_to_write() {
    let config = Config::default();
    let record = ThreadRecord { title: "Empty".to_string(), comments: vec![] };
    assert_eq!(config.document_for(&record), Err(EmptyThreadError));
}
