use podiff_review::catalog::Snapshot;
use podiff_review::po::{blob_parser, diff_catalogs, rewrite_newline_escapes};

fn pairs(s: &Snapshot) -> Vec<(String, String)> {
    s.entries()
}

#[test]
fn single_pair_parses() {
    let s = blob_parser("msgid \"hi\"\nmsgstr \"hallo\"\n", None);
    assert_eq!(pairs(&s), vec![("hi".to_string(), "hallo".to_string())]);
    assert_eq!(s.get("hi"), Some("hallo".to_string()));
}

#[test]
fn unchanged_entry_is_filtered() {
    let base = blob_parser("msgid \"hi\"\nmsgstr \"hallo\"\n", None);
    let s = blob_parser("msgid \"hi\"\nmsgstr \"hallo\"\n", Some(&base));
    assert!(s.is_empty());
    assert_eq!(s.len(), 0);
}

#[test]
fn changed_entry_is_kept_with_old_value() {
    let d = diff_catalogs(Some("msgid \"hi\"\nmsgstr \"hallo\"\n"), "msgid \"hi\"\nmsgstr \"servus\"\n");
    assert_eq!(pairs(&d.changed), vec![("hi".to_string(), "servus".to_string())]);
    assert_eq!(d.old.get("hi"), Some("hallo".to_string()));
}

#[test]
fn added_file_has_empty_old_snapshot() {
    let d = diff_catalogs(None, "msgid \"a\"\nmsgstr \"b\"\n");
    assert_eq!(pairs(&d.changed), vec![("a".to_string(), "b".to_string())]);
    assert!(d.old.is_empty());
}

#[test]
fn diff_twice_gives_same_result() {
    let old = "msgid \"x\"\nmsgstr \"1\"\n\nmsgid \"y\"\nmsgstr \"2\"\n";
    let new = "msgid \"x\"\nmsgstr \"1\"\n\nmsgid \"y\"\nmsgstr \"3\"\n\nmsgid \"z\"\nmsgstr \"4\"\n";
    let a = diff_catalogs(Some(old), new);
    let b = diff_catalogs(Some(old), new);
    assert_eq!(pairs(&a.changed), pairs(&b.changed));
    assert_eq!(pairs(&a.old), pairs(&b.old));
    assert_eq!(
        pairs(&a.changed),
        vec![("y".to_string(), "3".to_string()), ("z".to_string(), "4".to_string())]
    );
}

#[test]
fn header_entry_is_left_out() {
    let doc = "msgid \"\"\nmsgstr \"\"\n\"Content-Type: text/plain\\n\"\n\nmsgid \"a\"\nmsgstr \"b\"\n";
    let s = blob_parser(doc, None);
    assert_eq!(pairs(&s), vec![("a".to_string(), "b".to_string())]);
    assert_eq!(s.get(""), None);
}

#[test]
fn continuation_lines_are_joined_and_newlines_rewritten() {
    let doc = "msgid \"\"\n\"first\\n\"\n\"second\"\nmsgstr \"\"\n\"erste\\n\"\n\"zweite\"\n";
    let s = blob_parser(doc, None);
    assert_eq!(pairs(&s), vec![("first | second".to_string(), "erste | zweite".to_string())]);
}

#[test]
fn entries_are_ordered_by_id() {
    let doc = "msgid \"b\"\nmsgstr \"2\"\n\nmsgid \"a\"\nmsgstr \"1\"\n\nmsgid \"ab\"\nmsgstr \"3\"\n";
    let s = blob_parser(doc, None);
    assert_eq!(
        pairs(&s),
        vec![
            ("a".to_string(), "1".to_string()),
            ("ab".to_string(), "3".to_string()),
            ("b".to_string(), "2".to_string()),
        ]
    );
}

#[test]
fn later_duplicate_replaces_earlier() {
    let doc = "msgid \"a\"\nmsgstr \"1\"\n\nmsgid \"a\"\nmsgstr \"2\"\n";
    let s = blob_parser(doc, None);
    assert_eq!(pairs(&s), vec![("a".to_string(), "2".to_string())]);
}

#[test]
fn crlf_lines_and_missing_final_newline() {
    let s = blob_parser("msgid \"a\"\r\nmsgstr \"b\"", None);
    assert_eq!(pairs(&s), vec![("a".to_string(), "b".to_string())]);
}

#[test]
fn id_without_string_is_dropped() {
    let s = blob_parser("msgid \"lost\"\nmsgid \"a\"\nmsgstr \"b\"\n", None);
    assert_eq!(pairs(&s), vec![("a".to_string(), "b".to_string())]);
}

#[test]
fn stray_continuation_line_is_ignored() {
    let s = blob_parser("\"stray\"\n# comment\nmsgid \"a\"\nmsgstr \"b\"\n", None);
    assert_eq!(pairs(&s), vec![("a".to_string(), "b".to_string())]);
}

#[test]
fn empty_document_gives_empty_snapshot() {
    assert!(blob_parser("", None).is_empty());
}

#[test]
fn new_entry_against_baseline_is_kept() {
    let base = blob_parser("msgid \"a\"\nmsgstr \"1\"\n", None);
    let s = blob_parser("msgid \"a\"\nmsgstr \"1\"\n\nmsgid \"b\"\nmsgstr \"2\"\n", Some(&base));
    assert_eq!(pairs(&s), vec![("b".to_string(), "2".to_string())]);
}

#[test]
fn newline_escape_rewrite() {
    let v: Vec<char> = "a\\nb\\n".chars().collect();
    let r: String = rewrite_newline_escapes(&v).into_iter().collect();
    assert_eq!(r, "a | b | ");
}
