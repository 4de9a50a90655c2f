use podiff_review::builder::{
    get_changed_filenames, get_subjects_from_diff_and_trees, parse_name_status_line, select_file, BuildError,
    ChangedFile, FilenameChangeReason, Selection,
};

fn file(reason: FilenameChangeReason, name: &str, old: Option<&str>, new: Option<&str>) -> ChangedFile {
    ChangedFile {
        reason,
        filename: name.to_string(),
        old_content: old.map(|s| s.to_string()),
        new_content: new.map(|s| s.to_string()),
    }
}

#[test]
fn name_status_lines() {
    let c = parse_name_status_line("M\tpo/de.po\n").unwrap();
    assert_eq!(c.reason, FilenameChangeReason::Modify);
    assert_eq!(c.filename, "po/de.po");
    let a = parse_name_status_line("A  new file.po ").unwrap();
    assert_eq!(a.reason, FilenameChangeReason::Add);
    assert_eq!(a.filename, "new file.po");
    assert_eq!(parse_name_status_line("D\tgone.po").unwrap().reason, FilenameChangeReason::Delete);
    assert!(parse_name_status_line("R\tx").is_none());
    assert!(parse_name_status_line("").is_none());
}

#[test]
fn changed_filenames_all_or_nothing() {
    let ok = get_changed_filenames(&vec!["A\ta.po".to_string(), "M\tb.po".to_string()]).unwrap();
    assert_eq!(ok.len(), 2);
    assert_eq!(ok[1].filename, "b.po");
    assert!(get_changed_filenames(&vec!["A\ta.po".to_string(), "?\tb".to_string()]).is_none());
}

#[test]
fn selection_by_extension() {
    assert_eq!(select_file(FilenameChangeReason::Modify, "po/de.po", None).0, Selection::Reviewed);
    assert_eq!(select_file(FilenameChangeReason::Modify, "README", None).0, Selection::NotCatalog);
    assert_eq!(select_file(FilenameChangeReason::Delete, "po/de.po", None).0, Selection::Deleted);
    assert_eq!(select_file(FilenameChangeReason::Add, "po", None).0, Selection::NotCatalog);
}

#[test]
fn selection_by_pattern_detects_language() {
    let (sel, lang) = select_file(FilenameChangeReason::Modify, "po/fr.po", Some("po/(\\w+)\\.po"));
    assert_eq!(sel, Selection::Reviewed);
    assert_eq!(lang, Some("fr".to_string()));
    let (sel, lang) = select_file(FilenameChangeReason::Modify, "src/main.rs", Some("po/(\\w+)\\.po"));
    assert_eq!(sel, Selection::PatternMismatch);
    assert_eq!(lang, None);
    assert_eq!(select_file(FilenameChangeReason::Modify, "po/fr.po", Some("(")).0, Selection::BadPattern);
}

#[test]
fn subjects_of_added_and_modified_files() {
    let files = vec![
        file(FilenameChangeReason::Add, "po/new.po", None, Some("msgid \"a\"\nmsgstr \"1\"\n")),
        file(FilenameChangeReason::Modify, "notes.txt", Some("x"), Some("y")),
        file(FilenameChangeReason::Delete, "po/old.po", None, None),
        file(
            FilenameChangeReason::Modify,
            "po/de.po",
            Some("msgid \"hi\"\nmsgstr \"hallo\"\n\nmsgid \"same\"\nmsgstr \"gleich\"\n"),
            Some("msgid \"hi\"\nmsgstr \"servus\"\n\nmsgid \"same\"\nmsgstr \"gleich\"\n\nmsgid \"new\"\nmsgstr \"neu\"\n"),
        ),
    ];
    let subjects = get_subjects_from_diff_and_trees("c1", &files, None).unwrap();
    assert_eq!(subjects.len(), 3);
    assert_eq!(subjects[0].from_filename, "po/new.po");
    assert_eq!(subjects[0].orig, "a");
    assert!(subjects[0].added);
    assert_eq!(subjects[0].old, None);
    assert_eq!(subjects[1].orig, "hi");
    assert_eq!(subjects[1].old, Some("hallo".to_string()));
    assert_eq!(subjects[1].new, "servus");
    assert_eq!(subjects[2].orig, "new");
    assert_eq!(subjects[2].old, None);
    assert!(!subjects[2].added);
    assert_eq!(subjects[2].commit_id, "c1");
    assert_eq!(subjects[2].language, None);
}

#[test]
fn subjects_carry_detected_language() {
    let files = vec![file(FilenameChangeReason::Add, "po/de.po", None, Some("msgid \"a\"\nmsgstr \"b\"\n"))];
    let subjects = get_subjects_from_diff_and_trees("c1", &files, Some("po/(\\w+)\\.po")).unwrap();
    assert_eq!(subjects.len(), 1);
    assert_eq!(subjects[0].language, Some("de".to_string()));
}

#[test]
fn missing_content_is_an_error() {
    let files = vec![
        file(FilenameChangeReason::Add, "a.po", None, Some("")),
        file(FilenameChangeReason::Modify, "b.po", None, Some("msgid \"a\"\nmsgstr \"b\"\n")),
    ];
    assert_eq!(get_subjects_from_diff_and_trees("c1", &files, None).err(), Some(BuildError::MissingContent(1)));
}

#[test]
fn invalid_pattern_is_an_error() {
    let files = vec![file(FilenameChangeReason::Add, "a.po", None, Some(""))];
    assert_eq!(get_subjects_from_diff_and_trees("c1", &files, Some("(")).err(), Some(BuildError::InvalidPattern));
}

#[test]
fn same_ids_keep_their_identity_across_builds() {
    let one = vec![file(FilenameChangeReason::Modify, "po/de.po", Some("msgid \"hi\"\nmsgstr \"a\"\n"), Some("msgid \"hi\"\nmsgstr \"b\"\n"))];
    let two = vec![file(FilenameChangeReason::Modify, "po/de.po", Some("msgid \"hi\"\nmsgstr \"x\"\n"), Some("msgid \"hi\"\nmsgstr \"y\"\n\nmsgid \"z\"\nmsgstr \"w\"\n"))];
    let a = get_subjects_from_diff_and_trees("c1", &one, None).unwrap().remove(0).into_subject("t".to_string(), None);
    let b = get_subjects_from_diff_and_trees("c1", &two, None).unwrap().remove(0).into_subject("u".to_string(), None);
    assert_eq!(a.get_subject_id(), "c1:po/de.po:hi");
    assert_eq!(a.get_subject_id(), b.get_subject_id());
}

#[test]
fn placeholders_for_missing_old_translation() {
    let files = vec![
        file(FilenameChangeReason::Add, "a.po", None, Some("msgid \"x\"\nmsgstr \"1\"\n")),
        file(FilenameChangeReason::Modify, "b.po", Some("msgid \"k\"\nmsgstr \"0\"\n"), Some("msgid \"k\"\nmsgstr \"1\"\n\nmsgid \"y\"\nmsgstr \"2\"\n")),
    ];
    let mut subjects = get_subjects_from_diff_and_trees("c1", &files, None).unwrap();
    assert_eq!(subjects.len(), 3);
    let third = subjects.pop().unwrap().into_subject("two".to_string(), Some("ignored".to_string()));
    let second = subjects.pop().unwrap().into_subject("one".to_string(), Some("zero".to_string()));
    let first = subjects.pop().unwrap().into_subject("eins".to_string(), None);
    assert_eq!(first.oldtrans, "<no old version available>");
    assert_eq!(first.newtrans, "eins");
    assert_eq!(second.oldtrans, "zero");
    assert_eq!(second.old, Some("0".to_string()));
    assert_eq!(third.orig, "y");
    assert_eq!(third.oldtrans, "?????");
}
