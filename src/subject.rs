//! Review subjects: one changed catalog entry with its translations, and
//! its stable identity.
use vstd::prelude::*;
use crate::text::{chars_of, string_of};

verus! {

/// One decision unit: a changed entry of a catalog file in a commit.
pub struct QuestionSubject {
    pub commit_id: String,
    pub from_filename: String,
    /// The message-id: the text in the original language.
    pub orig: String,
    /// The string of the old revision, when the entry existed there.
    pub old: Option<String>,
    pub new: String,
    /// Translation of the old string, or a placeholder without one.
    pub oldtrans: String,
    pub newtrans: String,
}

/// The stable identity of a subject: "commit:filename:message-id".
pub open spec fn identity_key(commit_id: Seq<char>, filename: Seq<char>, orig: Seq<char>) -> Seq<char> {
    commit_id + seq![':'] + filename + seq![':'] + orig
}

/// The identity key of a subject.
pub open spec fn subject_key(s: QuestionSubject) -> Seq<char> {
    identity_key(s.commit_id@, s.from_filename@, s.orig@)
}

/// What `str::to_lowercase` gives for a text.
pub uninterp spec fn lower_of(s: Seq<char>) -> Seq<char>;

/// Relies on `str::to_lowercase`: the lowercase form of the text, which
/// depends on its characters alone.
#[verifier::external_body]
fn lowercase(s: &str) -> (r: String)
    ensures
        r@ == lower_of(s@),
{
    s.to_lowercase()
}

/// Whether the new translation equals the original text up to case: the
/// translation round-tripped, so no review is needed.
pub open spec fn fast_forwards(s: QuestionSubject) -> bool {
    lower_of(s.newtrans@) == lower_of(s.orig@)
}

/// Whether two texts are equal once lowercased.
pub fn equal_ignoring_case(a: &str, b: &str) -> (r: bool)
    ensures
        r == (lower_of(a@) == lower_of(b@)),
{
    let la = lowercase(a);
    let lb = lowercase(b);
    la == lb
}

/// Whether the subject's new translation equals its original text up to case.
pub fn is_obviously_equal(qs: &QuestionSubject) -> (r: bool)
    ensures
        r == fast_forwards(*qs),
{
    equal_ignoring_case(qs.newtrans.as_str(), qs.orig.as_str())
}

/// Joins the three parts of an identity key.
pub fn identity_key_of(commit_id: &str, filename: &str, orig: &str) -> (r: String)
    ensures
        r@ == identity_key(commit_id@, filename@, orig@),
{
    let mut v = chars_of(commit_id);
    v.push(':');
    let f = chars_of(filename);
    let mut i: usize = 0;
    let ghost head = v@;
    while i < f.len()
        invariant
            i <= f.len(),
            v@ == head + f@.take(i as int),
        decreases f.len() - i,
    {
        v.push(f[i]);
        assert(f@.take(i + 1) =~= f@.take(i as int).push(f@[i as int]));
        assert(head + f@.take(i + 1) =~= (head + f@.take(i as int)).push(f@[i as int]));
        i = i + 1;
    }
    assert(f@.take(f.len() as int) =~= f@);
    v.push(':');
    let o = chars_of(orig);
    let ghost head2 = v@;
    let mut j: usize = 0;
    while j < o.len()
        invariant
            j <= o.len(),
            v@ == head2 + o@.take(j as int),
        decreases o.len() - j,
    {
        v.push(o[j]);
        assert(o@.take(j + 1) =~= o@.take(j as int).push(o@[j as int]));
        assert(head2 + o@.take(j + 1) =~= (head2 + o@.take(j as int)).push(o@[j as int]));
        j = j + 1;
    }
    assert(o@.take(o.len() as int) =~= o@);
    string_of(&v)
}

impl QuestionSubject {
    /// The stable identity key: the commit, the file name and the
    /// message-id joined by ':'.
    pub fn get_subject_id(&self) -> (r: String)
        ensures
            r@ == subject_key(*self),
    {
        identity_key_of(self.commit_id.as_str(), self.from_filename.as_str(), self.orig.as_str())
    }
}

/// The identity key depends on the commit, the file name and the
/// message-id alone: two subjects that agree on these three have the same
/// key, whatever their strings and translations.
pub proof fn lemma_identity_stable(a: QuestionSubject, b: QuestionSubject)
    requires
        a.commit_id@ == b.commit_id@,
        a.from_filename@ == b.from_filename@,
        a.orig@ == b.orig@,
    ensures
        subject_key(a) == subject_key(b),
{
}

} // verus!
