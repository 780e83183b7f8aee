use ghastly::dialog::{Dialog, DialogEntry, DialogKey};
use std::borrow::Cow;

#[test]
fn unindented_entry() {
    let string = "ABC=\r\n123\r\n456";
    let slice = &string[4..];
    assert_eq!(slice, "\r\n123\r\n456", "sanity check");
    let entry = DialogEntry {
        indented_str: slice,
        level: 0,
    };
    assert_eq!(entry.unindent(), Cow::Borrowed("123\r\n456"));
}

#[test]
fn short_entry() {
    let string = "ABC=\t123";
    let slice = &string[4..];
    assert_eq!(slice, "\t123", "sanity check");
    let entry = DialogEntry {
        indented_str: slice,
        level: 1,
    };
    assert_eq!(entry.unindent(), Cow::Borrowed("123"));
}

#[test]
fn long_entry() {
    let string = "ABC=\n\t123\n\t456";
    let slice = &string[4..];
    assert_eq!(slice, "\n\t123\n\t456", "sanity check");
    let entry = DialogEntry {
        indented_str: slice,
        level: 1,
    };
    assert_eq!(entry.unindent(), Cow::Borrowed("123\n456\n").into_owned());
}

#[test]
fn escaped_hash_is_restored() {
    let entry = DialogEntry {
        indented_str: "\n  a \\# b\n  c#",
        level: 2,
    };
    assert_eq!(entry.unindent(), "a # b\nc#\n");
}

#[test]
fn unindented_multiline_keeps_text() {
    let entry = DialogEntry {
        indented_str: "\nx\n y",
        level: 0,
    };
    assert_eq!(entry.unindent(), "x\n y");
}

#[test]
fn indentation_beyond_level_is_kept() {
    let entry = DialogEntry {
        indented_str: "\n\t\tx\n\t\ty",
        level: 1,
    };
    assert_eq!(entry.unindent(), "x\n\ty\n");
}

#[test]
fn crlf_lines_are_split() {
    let entry = DialogEntry {
        indented_str: "\r\n a\r\n b",
        level: 1,
    };
    assert_eq!(entry.unindent(), "a\nb\n");
}

#[test]
fn empty_entry() {
    let entry = DialogEntry {
        indented_str: "",
        level: 3,
    };
    assert_eq!(entry.unindent(), "");
}

#[test]
fn dialog_key_holds_entry() {
    let entry = DialogEntry {
        indented_str: "v",
        level: 0,
    };
    let key = DialogKey("K", entry);
    assert_eq!(key.0, "K");
    assert_eq!(key.1, entry);
}

#[test]
fn dialog_insert_keeps_order_and_replaces() {
    let a = DialogEntry { indented_str: "one", level: 0 };
    let b = DialogEntry { indented_str: "two", level: 1 };
    let c = DialogEntry { indented_str: "three", level: 2 };
    let mut d = Dialog::new();
    assert!(d.iter().is_empty());
    assert_eq!(d.insert(DialogKey("A", a)), None);
    assert_eq!(d.insert(DialogKey("B", b)), None);
    assert_eq!(d.insert(DialogKey("A", c)), Some(DialogKey("A", a)));
    assert_eq!(d.iter(), vec![DialogKey("A", c), DialogKey("B", b)]);
    assert_eq!(Dialog::default().iter(), vec![]);
}
