use spor::anchor::{Anchor, Context};
use spor::diff::get_anchor_diff;

fn anchor_over(text: &str, offset: usize, width: usize, context_width: usize) -> Anchor {
    let context = Context::from_text(text, offset, width, context_width).unwrap();
    let metadata: serde_yaml::Value = serde_yaml::from_str("k: v").unwrap();
    Anchor::new("/some/file", context, metadata, "utf-8".to_string()).unwrap()
}

#[test]
fn unchanged_file_reports_no_change() {
    let anchor = anchor_over("asdf", 0, 4, 3);
    let (changed, lines) = get_anchor_diff(&anchor, "asdf").unwrap();
    assert!(!changed);
    assert_eq!(lines, vec![" asdf".to_string()]);
}

#[test]
fn changed_topic_reports_change() {
    let anchor = anchor_over("asdf", 0, 4, 3);
    let (changed, lines) = get_anchor_diff(&anchor, "qsdf").unwrap();
    assert!(changed);
    assert_eq!(lines, vec!["-asdf".to_string(), "+qsdf".to_string()]);
}

#[test]
fn change_outside_window_reports_no_change() {
    let anchor = anchor_over("abcdefghijkl", 4, 2, 1);
    let (changed, _lines) = get_anchor_diff(&anchor, "Xbcdefghijkl").unwrap();
    assert!(!changed);
}

#[test]
fn diff_fails_when_topic_cannot_be_reread() {
    let anchor = anchor_over("abcdef", 2, 4, 2);
    assert!(get_anchor_diff(&anchor, "abc").is_err());
}
