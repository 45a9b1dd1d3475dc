use spor::anchor::check_path::{AbsolutePath, CheckPath, RelativePath};
use spor::anchor::{Anchor, Context};

#[test]
fn context_construct_context_with_topic_at_front_of_file() {
    Context::from_text("text", 0, 4, 3).unwrap();
}

#[test]
fn anchor_construct_context_with_topic_at_front_of_file() {
    Context::from_text("text", 0, 4, 3).unwrap();
}

#[test]
fn context_fields_from_text() {
    let context = Context::from_text("abcdefghij", 4, 2, 3).unwrap();
    assert_eq!(context.before(), "bcd");
    assert_eq!(context.topic(), "ef");
    assert_eq!(context.after(), "ghi");
    assert_eq!(context.offset(), 4);
    assert_eq!(context.width(), 3);
    assert_eq!(context.full_text(), "bcdefghi");
}

#[test]
fn context_truncates_at_boundaries() {
    let context = Context::from_text("abcd", 1, 2, 10).unwrap();
    assert_eq!(context.before(), "a");
    assert_eq!(context.topic(), "bc");
    assert_eq!(context.after(), "d");
}

#[test]
fn context_rejects_topic_past_end_of_text() {
    assert!(Context::from_text("text", 2, 3, 1).is_err());
    assert!(Context::from_text("text", 5, 1, 1).is_err());
    assert!(Context::from_text("", 0, 1, 1).is_err());
}

#[test]
fn context_accepts_topic_covering_whole_text() {
    let context = Context::from_text("text", 0, 4, 0).unwrap();
    assert_eq!(context.before(), "");
    assert_eq!(context.topic(), "text");
    assert_eq!(context.after(), "");
}

#[test]
fn context_new_keeps_fields() {
    let context = Context::new("ab", 2, "cd", "ef", 3);
    assert_eq!(context.before(), "ab");
    assert_eq!(context.offset(), 2);
    assert_eq!(context.topic(), "cd");
    assert_eq!(context.after(), "ef");
    assert_eq!(context.width(), 3);
    assert_eq!(context.full_text(), "abcdef");
}

#[test]
fn anchor_requires_absolute_path() {
    let context = Context::from_text("text", 0, 4, 3).unwrap();
    let metadata: serde_yaml::Value = serde_yaml::from_str("foo: bar").unwrap();
    assert!(Anchor::new("foo/bar", context, metadata, "utf-8".to_string()).is_err());
}

#[test]
fn anchor_keeps_fields() {
    let context = Context::from_text("text", 0, 4, 3).unwrap();
    let metadata: serde_yaml::Value = serde_yaml::from_str("foo: bar").unwrap();
    let anchor = Anchor::new("/foo/bar", context, metadata, "utf-8".to_string()).unwrap();
    assert_eq!(anchor.file_path(), "/foo/bar");
    assert_eq!(anchor.encoding(), "utf-8");
    assert_eq!(anchor.context().topic(), "text");
}

#[test]
fn check_path_kinds() {
    assert!(AbsolutePath::check_path("/a/b").is_none());
    assert!(AbsolutePath::check_path("a/b").is_some());
    assert!(RelativePath::check_path("a/b").is_none());
    assert!(RelativePath::check_path("/a/b").is_some());
    assert!(AbsolutePath::check_path("").is_some());
    assert!(RelativePath::check_path("").is_none());
}
