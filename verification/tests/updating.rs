use spor::alignment::smith_waterman::{SimpleScorer, SmithWaterman};
use spor::anchor::{Anchor, Context};
use spor::updating::{update, UpdateError};

fn default_engine() -> SmithWaterman<SimpleScorer> {
    SmithWaterman::<SimpleScorer>::new(SimpleScorer::default())
}

#[test]
fn successful_update() {
    let initial_text = "asdf";
    let final_text = "qwer\nasdf";

    let context = Context::from_text(initial_text, 0, 4, 3).unwrap();

    let metadata: serde_yaml::Value = serde_yaml::from_str("foo: bar").unwrap();

    let anchor = Anchor::new("/foo/bar", context, metadata, "utf-8".to_string()).unwrap();

    let updated_anchor = update(&anchor, final_text, &default_engine()).unwrap();

    assert_eq!(updated_anchor.context().offset(), 5);
}

#[test]
fn update_keeps_path_encoding_and_metadata() {
    let context = Context::from_text("asdf", 0, 4, 3).unwrap();
    let metadata: serde_yaml::Value = serde_yaml::from_str("foo: bar").unwrap();
    let anchor = Anchor::new("/foo/bar", context, metadata, "utf-8".to_string()).unwrap();

    let updated_anchor = update(&anchor, "qwer\nasdf", &default_engine()).unwrap();

    assert_eq!(updated_anchor.file_path(), anchor.file_path());
    assert_eq!(updated_anchor.encoding(), anchor.encoding());
    assert_eq!(updated_anchor.metadata(), anchor.metadata());
    assert_eq!(updated_anchor.context().topic(), "asdf");
    assert_eq!(updated_anchor.context().width(), 3);
}

#[test]
fn update_on_unchanged_text_keeps_offset_and_topic() {
    let text = "abcdef";
    let context = Context::from_text(text, 2, 2, 3).unwrap();
    assert_eq!(context.full_text(), text);
    let metadata: serde_yaml::Value = serde_yaml::from_str("k: v").unwrap();
    let anchor = Anchor::new("/some/file", context, metadata, "utf-8".to_string()).unwrap();

    let updated_anchor = update(&anchor, text, &default_engine()).unwrap();

    assert_eq!(updated_anchor.context().offset(), 2);
    assert_eq!(updated_anchor.context().topic(), "cd");
    assert_eq!(updated_anchor.context().before(), "ab");
    assert_eq!(updated_anchor.context().after(), "ef");
}

#[test]
fn update_fails_when_topic_is_removed() {
    let context = Context::new("ab", 2, "cd", "ef", 3);
    let metadata: serde_yaml::Value = serde_yaml::from_str("k: v").unwrap();
    let anchor = Anchor::new("/some/file", context, metadata, "utf-8".to_string()).unwrap();

    let result = update(&anchor, "abef", &default_engine());
    assert!(matches!(result, Err(UpdateError::InvalidAlignment(_))));
}

#[test]
fn update_fails_on_empty_file_text() {
    let context = Context::from_text("asdf", 0, 4, 3).unwrap();
    let metadata: serde_yaml::Value = serde_yaml::from_str("k: v").unwrap();
    let anchor = Anchor::new("/some/file", context, metadata, "utf-8".to_string()).unwrap();

    let result = update(&anchor, "", &default_engine());
    assert!(matches!(result, Err(UpdateError::InvalidAlignment(_))));
}
