//! From the files a commit changed to the subjects to review: which files
//! are catalogs, which of their entries changed, and what each subject
//! carries before its translations are added.
use vstd::prelude::*;
use crate::catalog::{EntryModel, Snapshot, lookup};
use crate::po::{CatalogDiff, diff_catalogs, diff_spec, opt_str};
use crate::subject::{QuestionSubject, identity_key, subject_key};
use crate::text::{chars_of, string_of, join};

verus! {

/// Why a file appears in a commit's diff.
#[derive(PartialEq, Eq, Structural, Clone, Copy, Debug)]
pub enum FilenameChangeReason {
    Add,
    Modify,
    Delete,
}

/// A file that a commit changed.
pub struct FilenameChange {
    pub reason: FilenameChangeReason,
    pub filename: String,
}

/// The word for a reason.
pub open spec fn reason_word(r: FilenameChangeReason) -> Seq<char> {
    match r {
        FilenameChangeReason::Add => "add"@,
        FilenameChangeReason::Modify => "modify"@,
        FilenameChangeReason::Delete => "delete"@,
    }
}

impl FilenameChangeReason {
    /// The reason as a word: "add", "modify" or "delete".
    pub fn to_text(&self) -> (r: String)
        ensures
            r@ == reason_word(*self),
    {
        proof {
            broadcast use vstd::string::group_string_axioms;
        }
        match self {
            FilenameChangeReason::Add => "add".to_string(),
            FilenameChangeReason::Modify => "modify".to_string(),
            FilenameChangeReason::Delete => "delete".to_string(),
        }
    }
}

impl FilenameChange {
    /// "<file> changed because <reason>".
    pub fn to_text(&self) -> (r: String)
        ensures
            r@ == self.filename@ + " changed because "@ + reason_word(self.reason),
    {
        let head = join(self.filename.as_str(), " changed because ");
        let word = self.reason.to_text();
        join(head.as_str(), word.as_str())
    }
}

/// Whether `c` is white space in Unicode's sense (`char::is_whitespace`).
pub open spec fn is_white(c: char) -> bool {
    ('\u{9}' <= c && c <= '\u{d}') || c == ' ' || c == '\u{85}' || c == '\u{a0}' || c == '\u{1680}'
        || ('\u{2000}' <= c && c <= '\u{200a}') || c == '\u{2028}' || c == '\u{2029}'
        || c == '\u{202f}' || c == '\u{205f}' || c == '\u{3000}'
}

/// Drops the white space at the start.
pub open spec fn trim_start_white(s: Seq<char>) -> Seq<char>
    decreases s.len(),
{
    if s.len() > 0 && is_white(s[0]) {
        trim_start_white(s.drop_first())
    } else {
        s
    }
}

/// Drops the white space at the end.
pub open spec fn trim_end_white(s: Seq<char>) -> Seq<char>
    decreases s.len(),
{
    if s.len() > 0 && is_white(s.last()) {
        trim_end_white(s.drop_last())
    } else {
        s
    }
}

/// The reason a name-status letter stands for.
pub open spec fn reason_of_letter(c: char) -> Option<FilenameChangeReason> {
    if c == 'A' {
        Some(FilenameChangeReason::Add)
    } else if c == 'D' {
        Some(FilenameChangeReason::Delete)
    } else if c == 'M' {
        Some(FilenameChangeReason::Modify)
    } else {
        None
    }
}

/// A name-status line ("M\tpath"): the letter for the reason, then the
/// file name with the white space round it dropped.
pub open spec fn name_status(line: Seq<char>) -> Option<(FilenameChangeReason, Seq<char>)> {
    if line.len() == 0 {
        None
    } else {
        match reason_of_letter(line[0]) {
            Some(r) => Some((r, trim_end_white(trim_start_white(line.drop_first())))),
            None => None,
        }
    }
}

/// Whether `c` is white space.
fn white(c: char) -> (r: bool)
    ensures
        r == is_white(c),
{
    ('\u{9}' <= c && c <= '\u{d}') || c == ' ' || c == '\u{85}' || c == '\u{a0}' || c == '\u{1680}'
        || ('\u{2000}' <= c && c <= '\u{200a}') || c == '\u{2028}' || c == '\u{2029}'
        || c == '\u{202f}' || c == '\u{205f}' || c == '\u{3000}'
}

/// Reads one name-status line of a diff; `None` for an unknown letter or
/// an empty line.
pub fn parse_name_status_line(line: &str) -> (r: Option<FilenameChange>)
    ensures
        match r {
            Some(c) => name_status(line@) == Some((c.reason, c.filename@)),
            None => name_status(line@) is None,
        },
{
    let cs = chars_of(line);
    if cs.len() == 0 {
        return None;
    }
    let reason = if cs[0] == 'A' {
        FilenameChangeReason::Add
    } else if cs[0] == 'D' {
        FilenameChangeReason::Delete
    } else if cs[0] == 'M' {
        FilenameChangeReason::Modify
    } else {
        return None;
    };
    let n = cs.len();
    let mut a: usize = 1;
    assert(cs@.drop_first() =~= cs@.subrange(1, n as int));
    while a < n && white(cs[a])
        invariant
            1 <= a <= n == cs.len(),
            trim_start_white(cs@.drop_first()) == trim_start_white(cs@.subrange(a as int, n as int)),
        decreases n - a,
    {
        assert(cs@.subrange(a as int, n as int).drop_first() =~= cs@.subrange(a + 1, n as int));
        a = a + 1;
    }
    let mut b = n;
    while b > a && white(cs[b - 1])
        invariant
            1 <= a <= b <= n == cs.len(),
            trim_end_white(trim_start_white(cs@.drop_first())) == trim_end_white(cs@.subrange(a as int, b as int)),
        decreases b - a,
    {
        assert(cs@.subrange(a as int, b as int).drop_last() =~= cs@.subrange(a as int, b - 1));
        b = b - 1;
    }
    let mut name: Vec<char> = Vec::new();
    let mut i = a;
    while i < b
        invariant
            a <= i <= b <= cs.len(),
            name@ == cs@.subrange(a as int, i as int),
        decreases b - i,
    {
        name.push(cs[i]);
        assert(cs@.subrange(a as int, i + 1) =~= cs@.subrange(a as int, i as int).push(cs@[i as int]));
        i = i + 1;
    }
    Some(FilenameChange { reason, filename: string_of(&name) })
}

/// Reads the name-status lines of a diff, in order; `None` when a line is
/// not a name-status line.
pub fn get_changed_filenames(lines: &Vec<String>) -> (r: Option<Vec<FilenameChange>>)
    ensures
        match r {
            Some(v) => v@.len() == lines@.len() && forall|i: int| 0 <= i < v@.len() ==>
                name_status(#[trigger] lines@[i]@) == Some((v@[i].reason, v@[i].filename@)),
            None => exists|i: int| 0 <= i < lines@.len() && name_status(#[trigger] lines@[i]@) is None,
        },
{
    let mut res: Vec<FilenameChange> = Vec::new();
    let mut i: usize = 0;
    while i < lines.len()
        invariant
            i <= lines@.len(),
            res@.len() == i,
            forall|j: int| 0 <= j < i ==>
                name_status(#[trigger] lines@[j]@) == Some((res@[j].reason, res@[j].filename@)),
        decreases lines.len() - i,
    {
        match parse_name_status_line(lines[i].as_str()) {
            Some(c) => {
                res.push(c);
            },
            None => {
                return None;
            },
        }
        i = i + 1;
    }
    Some(res)
}

/// What the pattern gives on a text: `None` when the pattern does not
/// compile as a regular expression; otherwise the text of the first capture group of
/// the leftmost match, `None` inside when there is no match or the group
/// took no part in it.
pub uninterp spec fn pattern_capture(pattern: Seq<char>, text: Seq<char>) -> Option<Option<Seq<char>>>;

/// Relies on `regex::Regex::new` and `regex::Regex::captures`: compiles the
/// pattern and returns capture group 1 of the leftmost match; the result
/// depends on the pattern and the text alone.
#[verifier::external_body]
fn first_capture(pattern: &str, text: &str) -> (r: Option<Option<String>>)
    ensures
        match r {
            None => pattern_capture(pattern@, text@) is None,
            Some(None) => pattern_capture(pattern@, text@) == Some(None::<Seq<char>>),
            Some(Some(g)) => pattern_capture(pattern@, text@) == Some(Some(g@)),
        },
{
    let re = match regex::Regex::new(pattern) {
        Ok(re) => re,
        Err(_) => return None,
    };
    match re.captures(text) {
        Some(caps) => match caps.get(1) {
            Some(m) => Some(Some(m.as_str().to_string())),
            None => Some(None),
        },
        None => Some(None),
    }
}

/// Whether the file name ends with the catalog extension ".po".
pub open spec fn is_catalog_name(name: Seq<char>) -> bool {
    name.len() >= 3 && name.skip(name.len() - 3) == seq!['.', 'p', 'o']
}

/// How a changed file is treated.
#[derive(PartialEq, Eq, Structural, Clone, Copy, Debug)]
pub enum Selection {
    /// Its changed entries are reviewed.
    Reviewed,
    /// Without a pattern: its name does not end with ".po".
    NotCatalog,
    /// With a pattern: its name does not match, or the match leaves the
    /// language group unset.
    PatternMismatch,
    /// A catalog that the commit deleted: nothing to review.
    Deleted,
    /// The pattern is not a valid regular expression.
    BadPattern,
}

/// The selection rule. Without a pattern a file is a catalog when its name
/// ends with ".po"; with one, when the pattern's first group captures a
/// language code from the name. A deleted catalog is not reviewed.
pub open spec fn selection_of(reason: FilenameChangeReason, name: Seq<char>, pattern: Option<Seq<char>>) -> Selection {
    let is_catalog = match pattern {
        None => is_catalog_name(name),
        Some(p) => pattern_capture(p, name) matches Some(Some(_)),
    };
    if pattern matches Some(p) && pattern_capture(p, name) is None {
        Selection::BadPattern
    } else if !is_catalog {
        match pattern {
            None => Selection::NotCatalog,
            Some(_) => Selection::PatternMismatch,
        }
    } else if reason == FilenameChangeReason::Delete {
        Selection::Deleted
    } else {
        Selection::Reviewed
    }
}

/// The language code the pattern captures from the file name, if any.
pub open spec fn language_of(name: Seq<char>, pattern: Option<Seq<char>>) -> Option<Seq<char>> {
    match pattern {
        None => None,
        Some(p) => match pattern_capture(p, name) {
            Some(Some(l)) => Some(l),
            _ => None,
        },
    }
}

/// The view of an optional string.
pub open spec fn opt_string(o: Option<String>) -> Option<Seq<char>> {
    match o {
        Some(s) => Some(s@),
        None => None,
    }
}

/// Whether a file name ends with ".po".
fn has_catalog_extension(name: &str) -> (r: bool)
    ensures
        r == is_catalog_name(name@),
{
    let cs = chars_of(name);
    let n = cs.len();
    if n < 3 {
        return false;
    }
    let r = cs[n - 3] == '.' && cs[n - 2] == 'p' && cs[n - 1] == 'o';
    assert(r == (cs@.skip(n - 3) =~= seq!['.', 'p', 'o']));
    r
}

/// How a changed file is treated, and the language the pattern detects in
/// its name.
pub fn select_file(reason: FilenameChangeReason, filename: &str, pattern: Option<&str>) -> (r: (Selection, Option<String>))
    ensures
        r.0 == selection_of(reason, filename@, opt_str(pattern)),
        opt_string(r.1) == language_of(filename@, opt_str(pattern)),
{
    let (is_catalog, language) = match pattern {
        None => (has_catalog_extension(filename), None),
        Some(p) => match first_capture(p, filename) {
            None => return (Selection::BadPattern, None),
            Some(None) => (false, None),
            Some(Some(lang)) => (true, Some(lang)),
        },
    };
    if !is_catalog {
        match pattern {
            None => (Selection::NotCatalog, language),
            Some(_) => (Selection::PatternMismatch, language),
        }
    } else if reason == FilenameChangeReason::Delete {
        (Selection::Deleted, language)
    } else {
        (Selection::Reviewed, language)
    }
}

/// A changed file with its content in the parent commit and in the commit,
/// where the tree holds it.
pub struct ChangedFile {
    pub reason: FilenameChangeReason,
    pub filename: String,
    pub old_content: Option<String>,
    pub new_content: Option<String>,
}

/// Why the subjects of a commit could not be built.
#[derive(PartialEq, Eq, Structural, Clone, Copy, Debug)]
pub enum BuildError {
    /// The file-name pattern is not a valid regular expression.
    InvalidPattern,
    /// The file at this position is reviewed but a revision it needs is missing.
    MissingContent(usize),
}

/// A subject before its translations: a changed entry of a reviewed file.
pub struct PendingSubject {
    pub commit_id: String,
    pub from_filename: String,
    /// The source language detected in the file name, if any.
    pub language: Option<String>,
    pub orig: String,
    pub old: Option<String>,
    pub new: String,
    /// Whether the commit added the file.
    pub added: bool,
}

/// A pending subject as plain sequences.
pub struct PendingModel {
    pub commit_id: Seq<char>,
    pub from_filename: Seq<char>,
    pub language: Option<Seq<char>>,
    pub orig: Seq<char>,
    pub old: Option<Seq<char>>,
    pub new: Seq<char>,
    pub added: bool,
}

/// The view of a pending subject.
pub open spec fn pending_view(p: PendingSubject) -> PendingModel {
    PendingModel {
        commit_id: p.commit_id@,
        from_filename: p.from_filename@,
        language: opt_string(p.language),
        orig: p.orig@,
        old: opt_string(p.old),
        new: p.new@,
        added: p.added,
    }
}

/// The revisions a reviewed file needs: the new one for an added file,
/// both for a modified one.
pub open spec fn revisions_of(f: ChangedFile) -> Option<(Option<Seq<char>>, Seq<char>)> {
    match (f.reason, f.old_content, f.new_content) {
        (FilenameChangeReason::Add, _, Some(n)) => Some((None, n@)),
        (FilenameChangeReason::Modify, Some(o), Some(n)) => Some((Some(o@), n@)),
        _ => None,
    }
}

/// The pending subjects of one reviewed file: one per changed entry, in
/// the order of the changed snapshot, with the old string where the old
/// revision has the entry.
pub open spec fn file_pendings(
    commit_id: Seq<char>,
    f: ChangedFile,
    pattern: Option<Seq<char>>,
    revs: (Option<Seq<char>>, Seq<char>),
) -> Seq<PendingModel> {
    let d = diff_spec(revs.0, revs.1);
    d.0.map_values(|e: EntryModel| PendingModel {
        commit_id,
        from_filename: f.filename@,
        language: language_of(f.filename@, pattern),
        orig: e.0,
        old: lookup(d.1, e.0),
        new: e.1,
        added: f.reason == FilenameChangeReason::Add,
    })
}

/// The pending subjects of a commit's changed files, file by file in the
/// order given, or the first error.
pub open spec fn build_spec(commit_id: Seq<char>, files: Seq<ChangedFile>, pattern: Option<Seq<char>>)
    -> Result<Seq<PendingModel>, BuildError>
    decreases files.len(),
{
    if files.len() == 0 {
        Ok(Seq::empty())
    } else {
        match build_spec(commit_id, files.drop_last(), pattern) {
            Err(e) => Err(e),
            Ok(prev) => {
                let f = files.last();
                match selection_of(f.reason, f.filename@, pattern) {
                    Selection::BadPattern => Err(BuildError::InvalidPattern),
                    Selection::Reviewed => match revisions_of(f) {
                        None => Err(BuildError::MissingContent((files.len() - 1) as usize)),
                        Some(revs) => Ok(prev + file_pendings(commit_id, f, pattern, revs)),
                    },
                    _ => Ok(prev),
                }
            },
        }
    }
}

/// An error on a prefix of the files is the error on all of them.
proof fn lemma_build_error_stays(commit_id: Seq<char>, files: Seq<ChangedFile>, pattern: Option<Seq<char>>, i: int)
    requires
        0 <= i <= files.len(),
        build_spec(commit_id, files.take(i), pattern) is Err,
    ensures
        build_spec(commit_id, files, pattern) == build_spec(commit_id, files.take(i), pattern),
    decreases files.len(),
{
    if i == files.len() {
        assert(files.take(i) =~= files);
    } else {
        assert(files.drop_last().take(i) =~= files.take(i));
        lemma_build_error_stays(commit_id, files.drop_last(), pattern, i);
    }
}

/// Appends the pending subjects of one reviewed file to `out`.
fn push_file_pendings(
    commit_id: &str,
    f: &ChangedFile,
    language: Option<String>,
    pattern: Ghost<Option<Seq<char>>>,
    old_doc: Option<&str>,
    new_doc: &str,
    out: &mut Vec<PendingSubject>,
)
    requires
        opt_string(language) == language_of(f.filename@, pattern@),
    ensures
        final(out)@.map_values(|p: PendingSubject| pending_view(p))
            == old(out)@.map_values(|p: PendingSubject| pending_view(p))
                + file_pendings(commit_id@, *f, pattern@, (opt_str(old_doc), new_doc@)),
{
    let diff: CatalogDiff = diff_catalogs(old_doc, new_doc);
    let ghost expected = file_pendings(commit_id@, *f, pattern@, (opt_str(old_doc), new_doc@));
    let ghost base = old(out)@.map_values(|p: PendingSubject| pending_view(p));
    let n = diff.changed.len();
    let mut j: usize = 0;
    while j < n
        invariant
            n == diff.changed@.len(),
            diff.models(opt_str(old_doc), new_doc@),
            j <= n,
            expected == file_pendings(commit_id@, *f, pattern@, (opt_str(old_doc), new_doc@)),
            expected.len() == n,
            opt_string(language) == language_of(f.filename@, pattern@),
            out@.map_values(|p: PendingSubject| pending_view(p)) == base + expected.take(j as int),
        decreases n - j,
    {
        let (id, text) = diff.changed.entry_at(j);
        let old_text = match diff.old.lookup_chars(id) {
            Some(v) => Some(string_of(v)),
            None => None,
        };
        let language_copy = match &language {
            Some(l) => Some(l.clone()),
            None => None,
        };
        let p = PendingSubject {
            commit_id: commit_id.to_string(),
            from_filename: f.filename.clone(),
            language: language_copy,
            orig: string_of(id),
            old: old_text,
            new: string_of(text),
            added: f.reason == FilenameChangeReason::Add,
        };
        proof {
            broadcast use vstd::string::group_string_axioms;
        }
        assert(pending_view(p) == expected[j as int]);
        let ghost before = out@;
        out.push(p);
        assert(out@.map_values(|p: PendingSubject| pending_view(p))
            =~= before.map_values(|p: PendingSubject| pending_view(p)).push(pending_view(p)));
        assert(expected.take(j + 1) =~= expected.take(j as int).push(expected[j as int]));
        assert(base + expected.take(j + 1) =~= (base + expected.take(j as int)).push(expected[j as int]));
        j = j + 1;
    }
    assert(expected.take(n as int) =~= expected);
}

/// The pending subjects of a commit: for each changed file in order that the
/// selection rule reviews, one subject per new or changed entry.
pub fn get_subjects_from_diff_and_trees(commit_id: &str, files: &Vec<ChangedFile>, pattern: Option<&str>)
    -> (r: Result<Vec<PendingSubject>, BuildError>)
    ensures
        match r {
            Ok(v) => build_spec(commit_id@, files@, opt_str(pattern)) == Ok::<Seq<PendingModel>, BuildError>(
                v@.map_values(|p: PendingSubject| pending_view(p))),
            Err(e) => build_spec(commit_id@, files@, opt_str(pattern)) == Err::<Seq<PendingModel>, BuildError>(e),
        },
{
    let ghost pv = opt_str(pattern);
    let mut res: Vec<PendingSubject> = Vec::new();
    let mut i: usize = 0;
    assert(files@.take(0) =~= Seq::<ChangedFile>::empty());
    assert(res@.map_values(|p: PendingSubject| pending_view(p)) =~= Seq::<PendingModel>::empty());
    while i < files.len()
        invariant
            i <= files@.len(),
            pv == opt_str(pattern),
            build_spec(commit_id@, files@.take(i as int), pv) == Ok::<Seq<PendingModel>, BuildError>(
                res@.map_values(|p: PendingSubject| pending_view(p))),
        decreases files.len() - i,
    {
        let f = &files[i];
        proof {
            assert(files@.take(i + 1).drop_last() =~= files@.take(i as int));
            assert(files@.take(i + 1).last() == files@[i as int]);
        }
        let (sel, language) = select_file(f.reason, f.filename.as_str(), pattern);
        match sel {
            Selection::BadPattern => {
                proof {
                    lemma_build_error_stays(commit_id@, files@, pv, i + 1);
                }
                return Err(BuildError::InvalidPattern);
            },
            Selection::Reviewed => {
                let revisions: Option<(Option<&str>, &str)> = match (f.reason, &f.old_content, &f.new_content) {
                    (FilenameChangeReason::Add, _, Some(n)) => Some((None, n.as_str())),
                    (FilenameChangeReason::Modify, Some(o), Some(n)) => Some((Some(o.as_str()), n.as_str())),
                    _ => None,
                };
                match revisions {
                    None => {
                        proof {
                            lemma_build_error_stays(commit_id@, files@, pv, i + 1);
                        }
                        return Err(BuildError::MissingContent(i));
                    },
                    Some((old, new)) => {
                        push_file_pendings(commit_id, f, language, Ghost(pv), old, new, &mut res);
                    },
                }
            },
            _ => {},
        }
        i = i + 1;
    }
    assert(files@.take(files.len() as int) =~= files@);
    Ok(res)
}

/// The translation shown for a subject without an old string: one text
/// for a file the commit added, another for an entry new to a modified file.
pub open spec fn old_placeholder(added: bool) -> Seq<char> {
    if added {
        "<no old version available>"@
    } else {
        "?????"@
    }
}

impl PendingSubject {
    /// The subject with its translations: `newtrans` of the new string and,
    /// when the subject has an old string, `oldtrans` of it; without either
    /// the old translation is a placeholder.
    pub fn into_subject(self, newtrans: String, oldtrans: Option<String>) -> (r: QuestionSubject)
        ensures
            r.commit_id@ == self.commit_id@,
            r.from_filename@ == self.from_filename@,
            r.orig@ == self.orig@,
            opt_string(r.old) == opt_string(self.old),
            r.new@ == self.new@,
            r.newtrans@ == newtrans@,
            subject_key(r) == pending_key(pending_view(self)),
            r.oldtrans@ == (match (self.old, oldtrans) {
                (Some(_), Some(t)) => t@,
                _ => old_placeholder(self.added),
            }),
    {
        proof {
            broadcast use vstd::string::group_string_axioms;
        }
        let has_old = self.old.is_some();
        let oldtrans = match oldtrans {
            Some(t) if has_old => t,
            _ => if self.added {
                "<no old version available>".to_string()
            } else {
                "?????".to_string()
            },
        };
        QuestionSubject {
            commit_id: self.commit_id,
            from_filename: self.from_filename,
            orig: self.orig,
            old: self.old,
            new: self.new,
            oldtrans,
            newtrans,
        }
    }
}

/// The identity key of a pending subject.
pub open spec fn pending_key(p: PendingModel) -> Seq<char> {
    identity_key(p.commit_id, p.from_filename, p.orig)
}

/// Every pending subject built for a commit carries that commit's id.
proof fn lemma_build_commit(commit_id: Seq<char>, files: Seq<ChangedFile>, pattern: Option<Seq<char>>)
    ensures
        build_spec(commit_id, files, pattern) is Ok ==> forall|i: int|
            0 <= i < build_spec(commit_id, files, pattern)->Ok_0.len()
                ==> (#[trigger] build_spec(commit_id, files, pattern)->Ok_0[i]).commit_id == commit_id,
    decreases files.len(),
{
    if files.len() > 0 {
        lemma_build_commit(commit_id, files.drop_last(), pattern);
    }
}

/// Identity is stable across builds: two builds for the same commit, over
/// files with any contents, give subjects of the same file and message-id
/// the same identity key.
pub proof fn lemma_build_identity_stable(
    commit_id: Seq<char>,
    files1: Seq<ChangedFile>,
    files2: Seq<ChangedFile>,
    pattern1: Option<Seq<char>>,
    pattern2: Option<Seq<char>>,
    i: int,
    j: int,
)
    requires
        build_spec(commit_id, files1, pattern1) is Ok,
        build_spec(commit_id, files2, pattern2) is Ok,
        0 <= i < build_spec(commit_id, files1, pattern1)->Ok_0.len(),
        0 <= j < build_spec(commit_id, files2, pattern2)->Ok_0.len(),
        build_spec(commit_id, files1, pattern1)->Ok_0[i].from_filename
            == build_spec(commit_id, files2, pattern2)->Ok_0[j].from_filename,
        build_spec(commit_id, files1, pattern1)->Ok_0[i].orig == build_spec(commit_id, files2, pattern2)->Ok_0[j].orig,
    ensures
        pending_key(build_spec(commit_id, files1, pattern1)->Ok_0[i])
            == pending_key(build_spec(commit_id, files2, pattern2)->Ok_0[j]),
{
    lemma_build_commit(commit_id, files1, pattern1);
    lemma_build_commit(commit_id, files2, pattern2);
}

} // verus!
