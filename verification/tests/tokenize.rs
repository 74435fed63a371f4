use muon::lines::{tokenize, Define};
use muon::error::LineError;

#[test]
fn tokenize_splits_keys_and_values() {
    let defs = tokenize("name: value\nother: more text\n");
    assert_eq!(defs.len(), 2);
    match &defs[0] {
        Define::Valid { indent, line, key, value } => {
            assert_eq!(*indent, 0);
            assert_eq!(*line, 1);
            assert_eq!(key, "name");
            assert_eq!(value, "value");
        }
        _ => panic!("expected a valid definition"),
    }
    match &defs[1] {
        Define::Valid { line, key, value, .. } => {
            assert_eq!(*line, 2);
            assert_eq!(key, "other");
            assert_eq!(value, "more text");
        }
        _ => panic!("expected a valid definition"),
    }
}

#[test]
fn tokenize_trims_and_counts_indent() {
    let defs = tokenize("  key  :   spaced value  \n");
    assert_eq!(defs.len(), 1);
    match &defs[0] {
        Define::Valid { indent, line, key, value } => {
            assert_eq!(*indent, 2);
            assert_eq!(*line, 1);
            assert_eq!(key, "key");
            assert_eq!(value, "spaced value");
        }
        _ => panic!("expected a valid definition"),
    }
}

#[test]
fn tokenize_skips_blank_and_comment_lines() {
    let defs = tokenize("# comment\n\na: 1\n# another\nb: 2\n");
    assert_eq!(defs.len(), 2);
    match &defs[0] {
        Define::Valid { line, key, .. } => {
            assert_eq!(*line, 3);
            assert_eq!(key, "a");
        }
        _ => panic!("expected a valid definition"),
    }
    match &defs[1] {
        Define::Valid { line, key, .. } => {
            assert_eq!(*line, 5);
            assert_eq!(key, "b");
        }
        _ => panic!("expected a valid definition"),
    }
}

#[test]
fn tokenize_splits_at_first_separator() {
    let defs = tokenize("url: http://example\n");
    assert_eq!(defs.len(), 1);
    match &defs[0] {
        Define::Valid { key, value, .. } => {
            assert_eq!(key, "url");
            assert_eq!(value, "http://example");
        }
        _ => panic!("expected a valid definition"),
    }
}

#[test]
fn tokenize_marks_missing_separator() {
    let defs = tokenize("ok: 1\nno separator\n");
    assert_eq!(defs.len(), 2);
    assert!(matches!(
        defs[1],
        Define::Invalid { err: LineError::MissingSeparator, line: 2 }
    ));
}

#[test]
fn tokenize_marks_empty_key() {
    let defs = tokenize(":value\n");
    assert_eq!(defs.len(), 1);
    assert!(matches!(defs[0], Define::Invalid { err: LineError::EmptyKey, line: 1 }));
}

#[test]
fn tokenize_keeps_going_after_invalid_line() {
    let defs = tokenize("bad\ngood: yes\n");
    assert_eq!(defs.len(), 2);
    assert!(matches!(
        defs[0],
        Define::Invalid { err: LineError::MissingSeparator, line: 1 }
    ));
    match &defs[1] {
        Define::Valid { line, key, value, .. } => {
            assert_eq!(*line, 2);
            assert_eq!(key, "good");
            assert_eq!(value, "yes");
        }
        _ => panic!("expected a valid definition"),
    }
}

#[test]
fn tokenize_last_line_without_newline() {
    let defs = tokenize("a: 1\nb: 2");
    assert_eq!(defs.len(), 2);
    match &defs[1] {
        Define::Valid { line, key, value, .. } => {
            assert_eq!(*line, 2);
            assert_eq!(key, "b");
            assert_eq!(value, "2");
        }
        _ => panic!("expected a valid definition"),
    }
}

#[test]
fn tokenize_empty_value_is_allowed() {
    let defs = tokenize("k:\n");
    assert_eq!(defs.len(), 1);
    match &defs[0] {
        Define::Valid { key, value, .. } => {
            assert_eq!(key, "k");
            assert_eq!(value, "");
        }
        _ => panic!("expected a valid definition"),
    }
}
