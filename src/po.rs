//! The PO line grammar: `msgid "..."` and `msgstr "..."` lines, quoted
//! continuation lines, and the pairs a document yields.
use vstd::prelude::*;
use crate::catalog::{EntryModel, Snapshot, insert_sorted, lookup, lemma_lookup_insert_sorted, sorted_ids};
use crate::text::{lex_lt, lemma_lex_lt_total, lemma_lex_lt_transitive};
use crate::text::{chars_eq, chars_of};

verus! {

/// The lines of a document: split at each '\n', a '\r' before the '\n'
/// dropped; a last line without '\n' is kept when it is not empty.
/// `cur` holds the characters of the line read so far.
pub open spec fn lines_from(doc: Seq<char>, cur: Seq<char>) -> Seq<Seq<char>>
    decreases doc.len(),
{
    if doc.len() == 0 {
        if cur.len() == 0 {
            seq![]
        } else {
            seq![cur]
        }
    } else if doc[0] == '\n' {
        seq![strip_cr(cur)] + lines_from(doc.drop_first(), seq![])
    } else {
        lines_from(doc.drop_first(), cur.push(doc[0]))
    }
}

/// The lines of a whole document.
pub open spec fn lines(doc: Seq<char>) -> Seq<Seq<char>> {
    lines_from(doc, seq![])
}

/// A line without its trailing carriage return.
pub open spec fn strip_cr(l: Seq<char>) -> Seq<char> {
    if l.len() > 0 && l.last() == '\r' {
        l.drop_last()
    } else {
        l
    }
}

/// Drops the double quotes at the start.
pub open spec fn trim_start_quotes(s: Seq<char>) -> Seq<char>
    decreases s.len(),
{
    if s.len() > 0 && s[0] == '"' {
        trim_start_quotes(s.drop_first())
    } else {
        s
    }
}

/// Drops the double quotes at the end.
pub open spec fn trim_end_quotes(s: Seq<char>) -> Seq<char>
    decreases s.len(),
{
    if s.len() > 0 && s.last() == '"' {
        trim_end_quotes(s.drop_last())
    } else {
        s
    }
}

/// Drops the double quotes at both ends.
pub open spec fn trim_quotes(s: Seq<char>) -> Seq<char> {
    trim_end_quotes(trim_start_quotes(s))
}

/// The visible separator that stands for an escaped newline.
pub open spec fn newline_separator() -> Seq<char> {
    seq![' ', '|', ' ']
}

/// Rewrites each two-character escape `\n`, from left to right, to " | ".
pub open spec fn rewrite_newlines(s: Seq<char>) -> Seq<char>
    decreases s.len(),
{
    if s.len() == 0 {
        s
    } else if s.len() >= 2 && s[0] == '\\' && s[1] == 'n' {
        newline_separator() + rewrite_newlines(s.skip(2))
    } else {
        seq![s[0]] + rewrite_newlines(s.drop_first())
    }
}

/// `msgid ` as characters.
pub open spec fn msgid_prefix() -> Seq<char> {
    seq!['m', 's', 'g', 'i', 'd', ' ']
}

/// `msgstr ` as characters.
pub open spec fn msgstr_prefix() -> Seq<char> {
    seq!['m', 's', 'g', 's', 't', 'r', ' ']
}

/// Whether `s` begins with `p`.
pub open spec fn has_prefix(s: Seq<char>, p: Seq<char>) -> bool {
    s.len() >= p.len() && s.take(p.len() as int) == p
}

/// What a continuation line is appended to.
#[derive(PartialEq, Eq, Structural, Clone, Copy, Debug)]
pub enum Accumulating {
    Nothing,
    Id,
    Text,
}

/// The parser between two lines: the pending id and string, what a
/// continuation line extends, and the pairs completed so far.
pub struct ParseState {
    pub id: Option<Seq<char>>,
    pub text: Option<Seq<char>>,
    pub mode: Accumulating,
    pub pairs: Seq<EntryModel>,
}

/// The state before the first line.
pub open spec fn initial_state() -> ParseState {
    ParseState { id: None, text: None, mode: Accumulating::Nothing, pairs: seq![] }
}

/// Completes the pending pair when both its id and its string are there,
/// with escaped newlines rewritten; otherwise nothing changes.
pub open spec fn flush(st: ParseState) -> ParseState {
    match (st.id, st.text) {
        (Some(i), Some(t)) => ParseState {
            id: None,
            text: None,
            mode: st.mode,
            pairs: st.pairs.push((rewrite_newlines(i), rewrite_newlines(t))),
        },
        _ => st,
    }
}

/// Appends `more` to a pending value, when there is one.
pub open spec fn extend(v: Option<Seq<char>>, more: Seq<char>) -> Option<Seq<char>> {
    match v {
        Some(s) => Some(s + more),
        None => None,
    }
}

/// The effect of one line.
pub open spec fn step(st: ParseState, line: Seq<char>) -> ParseState {
    let st1 = if line.len() > 0 && line[0] == '"' && st.mode != Accumulating::Nothing {
        if st.mode == Accumulating::Id {
            ParseState { id: extend(st.id, trim_quotes(line)), ..st }
        } else {
            ParseState { text: extend(st.text, trim_quotes(line)), ..st }
        }
    } else {
        flush(ParseState { mode: Accumulating::Nothing, ..st })
    };
    if has_prefix(line, msgid_prefix()) {
        ParseState {
            id: Some(trim_quotes(line.skip(msgid_prefix().len() as int))),
            mode: Accumulating::Id,
            ..st1
        }
    } else if has_prefix(line, msgstr_prefix()) {
        ParseState {
            text: Some(trim_quotes(line.skip(msgstr_prefix().len() as int))),
            mode: Accumulating::Text,
            ..st1
        }
    } else {
        st1
    }
}

/// The state after a sequence of lines.
pub open spec fn run(st: ParseState, ls: Seq<Seq<char>>) -> ParseState
    decreases ls.len(),
{
    if ls.len() == 0 {
        st
    } else {
        run(step(st, ls[0]), ls.drop_first())
    }
}

/// Every (message-id, message-string) pair of a document, in document order,
/// the header pair with an empty id included.
pub open spec fn document_pairs(doc: Seq<char>) -> Seq<EntryModel> {
    flush(run(initial_state(), lines(doc))).pairs
}

/// Whether a pair is kept: its id is not empty, and the baseline, when
/// given, does not hold the same string under that id.
pub open spec fn keeps(p: EntryModel, baseline: Option<Seq<EntryModel>>) -> bool {
    p.0.len() > 0 && match baseline {
        None => true,
        Some(b) => lookup(b, p.0) != Some(p.1),
    }
}

/// The snapshot built from pairs in order: each kept pair is inserted,
/// a later one replacing an earlier one with the same id.
pub open spec fn collect(ps: Seq<EntryModel>, baseline: Option<Seq<EntryModel>>) -> Seq<EntryModel>
    decreases ps.len(),
{
    if ps.len() == 0 {
        seq![]
    } else {
        let prev = collect(ps.drop_last(), baseline);
        let p = ps.last();
        if keeps(p, baseline) {
            insert_sorted(prev, p.0, p.1)
        } else {
            prev
        }
    }
}

/// The parsed catalog: the entries of `doc`, without the header, and
/// filtered against the baseline when one is given.
pub open spec fn parse_catalog(doc: Seq<char>, baseline: Option<Seq<EntryModel>>) -> Seq<EntryModel> {
    collect(document_pairs(doc), baseline)
}

/// The view of an optional character vector.
pub open spec fn opt_chars(o: Option<Vec<char>>) -> Option<Seq<char>> {
    match o {
        Some(v) => Some(v@),
        None => None,
    }
}

/// The view of an optional baseline snapshot.
pub open spec fn opt_snapshot(b: Option<&Snapshot>) -> Option<Seq<EntryModel>> {
    match b {
        Some(s) => Some(s@),
        None => None,
    }
}

/// `doc[lo..hi]` with the double quotes at both ends dropped.
fn trimmed(doc: &Vec<char>, lo: usize, hi: usize) -> (r: Vec<char>)
    requires
        lo <= hi <= doc.len(),
    ensures
        r@ == trim_quotes(doc@.subrange(lo as int, hi as int)),
{
    let mut a = lo;
    while a < hi && doc[a] == '"'
        invariant
            lo <= a <= hi <= doc.len(),
            trim_start_quotes(doc@.subrange(lo as int, hi as int))
                == trim_start_quotes(doc@.subrange(a as int, hi as int)),
        decreases hi - a,
    {
        assert(doc@.subrange(a as int, hi as int).drop_first() =~= doc@.subrange(a + 1, hi as int));
        a = a + 1;
    }
    let mut b = hi;
    assert(trim_start_quotes(doc@.subrange(a as int, hi as int)) == doc@.subrange(a as int, hi as int));
    while b > a && doc[b - 1] == '"'
        invariant
            lo <= a <= b <= hi <= doc.len(),
            trim_quotes(doc@.subrange(lo as int, hi as int))
                == trim_end_quotes(doc@.subrange(a as int, b as int)),
        decreases b - a,
    {
        assert(doc@.subrange(a as int, b as int).drop_last() =~= doc@.subrange(a as int, b - 1));
        b = b - 1;
    }
    let mut r: Vec<char> = Vec::new();
    let mut i = a;
    while i < b
        invariant
            a <= i <= b <= doc.len(),
            r@ == doc@.subrange(a as int, i as int),
        decreases b - i,
    {
        r.push(doc[i]);
        assert(doc@.subrange(a as int, i + 1) =~= doc@.subrange(a as int, i as int).push(doc@[i as int]));
        i = i + 1;
    }
    r
}

/// Whether `doc[lo..hi]` begins with `p`.
fn has_prefix_at(doc: &Vec<char>, lo: usize, hi: usize, p: &Vec<char>) -> (r: bool)
    requires
        lo <= hi <= doc.len(),
    ensures
        r == has_prefix(doc@.subrange(lo as int, hi as int), p@),
{
    let ghost line = doc@.subrange(lo as int, hi as int);
    if hi - lo < p.len() {
        return false;
    }
    let mut i: usize = 0;
    while i < p.len()
        invariant
            lo + p.len() <= hi <= doc.len(),
            i <= p.len(),
            line == doc@.subrange(lo as int, hi as int),
            forall|j: int| 0 <= j < i ==> line[j] == p@[j],
        decreases p.len() - i,
    {
        if doc[lo + i] != p[i] {
            assert(line.take(p.len() as int)[i as int] != p@[i as int]);
            return false;
        }
        i = i + 1;
    }
    assert(line.take(p.len() as int) =~= p@);
    true
}

/// Appends the characters of `more` to `v`.
fn append_chars(v: &mut Vec<char>, more: &Vec<char>)
    ensures
        final(v)@ == old(v)@ + more@,
{
    let mut i: usize = 0;
    while i < more.len()
        invariant
            i <= more.len(),
            v@ == old(v)@ + more@.take(i as int),
        decreases more.len() - i,
    {
        v.push(more[i]);
        assert(more@.take(i + 1) =~= more@.take(i as int).push(more@[i as int]));
        assert(old(v)@ + more@.take(i + 1) =~= (old(v)@ + more@.take(i as int)).push(more@[i as int]));
        i = i + 1;
    }
    assert(more@.take(more.len() as int) =~= more@);
}

/// Rewrites each escaped newline `\n` of `s` to the separator " | ".
pub fn rewrite_newline_escapes(s: &Vec<char>) -> (r: Vec<char>)
    ensures
        r@ == rewrite_newlines(s@),
{
    let mut r: Vec<char> = Vec::new();
    let mut i: usize = 0;
    assert(s@.skip(0) =~= s@);
    assert(r@ + rewrite_newlines(s@.skip(0)) =~= rewrite_newlines(s@));
    while i < s.len()
        invariant
            i <= s.len(),
            r@ + rewrite_newlines(s@.skip(i as int)) == rewrite_newlines(s@),
        decreases s.len() - i,
    {
        let ghost rest = s@.skip(i as int);
        if i + 1 < s.len() && s[i] == '\\' && s[i + 1] == 'n' {
            assert(rest.skip(2) =~= s@.skip(i + 2));
            assert(rewrite_newlines(rest) == newline_separator() + rewrite_newlines(s@.skip(i + 2)));
            r.push(' ');
            r.push('|');
            r.push(' ');
            assert(r@ + rewrite_newlines(s@.skip(i + 2)) =~= rewrite_newlines(s@));
            i = i + 2;
        } else {
            assert(rest.drop_first() =~= s@.skip(i + 1));
            assert(rewrite_newlines(rest) == seq![s@[i as int]] + rewrite_newlines(s@.skip(i + 1)));
            r.push(s[i]);
            assert(r@ + rewrite_newlines(s@.skip(i + 1)) =~= rewrite_newlines(s@));
            i = i + 1;
        }
    }
    assert(s@.skip(i as int) =~= Seq::<char>::empty());
    assert(r@ =~= r@ + rewrite_newlines(s@.skip(i as int)));
    r
}

/// Whether the pair `(id, text)` is kept against the baseline.
fn keeps_pair(id: &Vec<char>, text: &Vec<char>, baseline: Option<&Snapshot>) -> (r: bool)
    ensures
        r == keeps((id@, text@), opt_snapshot(baseline)),
{
    if id.len() == 0 {
        return false;
    }
    match baseline {
        None => true,
        Some(b) => match b.lookup_chars(id) {
            Some(old) => !chars_eq(old, text),
            None => true,
        },
    }
}

/// The executable parser state.
struct LineParser {
    id: Option<Vec<char>>,
    text: Option<Vec<char>>,
    mode: Accumulating,
    pairs: Ghost<Seq<EntryModel>>,
}

impl LineParser {
    spec fn state(&self) -> ParseState {
        ParseState { id: opt_chars(self.id), text: opt_chars(self.text), mode: self.mode, pairs: self.pairs@ }
    }

    /// Completes the pending pair and records it in `out` when it is kept.
    fn flush(&mut self, out: &mut Snapshot, baseline: Option<&Snapshot>)
        requires
            old(out)@ == collect(old(self).state().pairs, opt_snapshot(baseline)),
        ensures
            final(self).state() == flush(old(self).state()),
            final(out)@ == collect(final(self).state().pairs, opt_snapshot(baseline)),
    {
        if self.id.is_some() && self.text.is_some() {
            let id = rewrite_newline_escapes(self.id.as_ref().unwrap());
            let text = rewrite_newline_escapes(self.text.as_ref().unwrap());
            let ghost before = self.pairs@;
            let ghost p = (id@, text@);
            self.pairs = Ghost(before.push(p));
            assert(self.pairs@.drop_last() =~= before);
            if keeps_pair(&id, &text, baseline) {
                out.insert_chars(id, text);
            }
            self.id = None;
            self.text = None;
        }
    }

    /// Takes one line, `doc[lo..hi]`.
    fn feed(&mut self, doc: &Vec<char>, lo: usize, hi: usize, out: &mut Snapshot, baseline: Option<&Snapshot>)
        requires
            lo <= hi <= doc.len(),
            old(out)@ == collect(old(self).state().pairs, opt_snapshot(baseline)),
        ensures
            final(self).state() == step(old(self).state(), doc@.subrange(lo as int, hi as int)),
            final(out)@ == collect(final(self).state().pairs, opt_snapshot(baseline)),
    {
        let ghost line = doc@.subrange(lo as int, hi as int);
        let ghost st0 = self.state();
        if lo < hi && doc[lo] == '"' && self.mode != Accumulating::Nothing {
            let t = trimmed(doc, lo, hi);
            if self.mode == Accumulating::Id {
                let cur = self.id.take();
                match cur {
                    Some(mut v) => {
                        append_chars(&mut v, &t);
                        self.id = Some(v);
                    },
                    None => {},
                }
            } else {
                let cur = self.text.take();
                match cur {
                    Some(mut v) => {
                        append_chars(&mut v, &t);
                        self.text = Some(v);
                    },
                    None => {},
                }
            }
        } else {
            self.mode = Accumulating::Nothing;
            self.flush(out, baseline);
        }
        let msgid: Vec<char> = vec!['m', 's', 'g', 'i', 'd', ' '];
        let msgstr: Vec<char> = vec!['m', 's', 'g', 's', 't', 'r', ' '];
        assert(msgid@ =~= msgid_prefix());
        assert(msgstr@ =~= msgstr_prefix());
        if has_prefix_at(doc, lo, hi, &msgid) {
            assert(line.skip(6) =~= doc@.subrange(lo + 6, hi as int));
            self.id = Some(trimmed(doc, lo + 6, hi));
            self.mode = Accumulating::Id;
        } else if has_prefix_at(doc, lo, hi, &msgstr) {
            assert(line.skip(7) =~= doc@.subrange(lo + 7, hi as int));
            self.text = Some(trimmed(doc, lo + 7, hi));
            self.mode = Accumulating::Text;
        }
    }
}

/// Unfolds `run` over a sequence that starts with `l`.
proof fn lemma_run_cons(st: ParseState, l: Seq<char>, rest: Seq<Seq<char>>)
    ensures
        run(st, seq![l] + rest) == run(step(st, l), rest),
{
    let ls = seq![l] + rest;
    assert(ls[0] == l);
    assert(ls.drop_first() =~= rest);
}

/// Parses the characters of a catalog document.
pub fn parse_chars(doc: &Vec<char>, baseline: Option<&Snapshot>) -> (r: Snapshot)
    ensures
        r@ == parse_catalog(doc@, opt_snapshot(baseline)),
{
    let ghost bv = opt_snapshot(baseline);
    let ghost d = doc@;
    let mut out = Snapshot::new();
    let mut p = LineParser { id: None, text: None, mode: Accumulating::Nothing, pairs: Ghost(Seq::empty()) };
    let n = doc.len();
    let mut start: usize = 0;
    let mut pos: usize = 0;
    assert(d.skip(0) =~= d);
    assert(d.subrange(0, 0) =~= Seq::<char>::empty());
    assert(p.state() == initial_state());
    while pos < n
        invariant
            n == doc.len(),
            d == doc@,
            bv == opt_snapshot(baseline),
            start <= pos <= n,
            out@ == collect(p.state().pairs, bv),
            document_pairs(d) == flush(run(p.state(), lines_from(d.skip(pos as int), d.subrange(start as int, pos as int)))).pairs,
        decreases n - pos,
    {
        let ghost rest = d.skip(pos as int);
        let ghost cur = d.subrange(start as int, pos as int);
        assert(rest[0] == d[pos as int]);
        assert(rest.drop_first() =~= d.skip(pos + 1));
        if doc[pos] == '\n' {
            let hi = if pos > start && doc[pos - 1] == '\r' { pos - 1 } else { pos };
            assert(strip_cr(cur) =~= d.subrange(start as int, hi as int));
            proof {
                lemma_run_cons(p.state(), strip_cr(cur), lines_from(d.skip(pos + 1), seq![]));
            }
            p.feed(doc, start, hi, &mut out, baseline);
            start = pos + 1;
            assert(d.subrange(start as int, start as int) =~= Seq::<char>::empty());
        } else {
            assert(cur.push(d[pos as int]) =~= d.subrange(start as int, pos + 1));
        }
        pos = pos + 1;
    }
    assert(d.skip(n as int) =~= Seq::<char>::empty());
    if start < n {
        let ghost cur = d.subrange(start as int, n as int);
        proof {
            lemma_run_cons(p.state(), cur, seq![]);
            assert(seq![cur] + Seq::<Seq<char>>::empty() =~= seq![cur]);
        }
        p.feed(doc, start, n, &mut out, baseline);
    }
    p.flush(&mut out, baseline);
    out
}

/// Parses a catalog document: its entries by message-id, the header entry
/// (empty id) left out and, when a baseline is given, only the entries
/// that are new or whose string differs from the baseline's.
pub fn blob_parser(doc: &str, baseline: Option<&Snapshot>) -> (r: Snapshot)
    ensures
        r@ == parse_catalog(doc@, opt_snapshot(baseline)),
{
    let chars = chars_of(doc);
    parse_chars(&chars, baseline)
}

/// Every entry after an insertion is the inserted one or an entry that was there.
proof fn lemma_insert_sorted_members(s: Seq<EntryModel>, k: Seq<char>, v: Seq<char>)
    ensures
        forall|i: int| 0 <= i < insert_sorted(s, k, v).len() ==>
            #[trigger] insert_sorted(s, k, v)[i] == (k, v) || s.contains(insert_sorted(s, k, v)[i]),
    decreases s.len(),
{
    let r = insert_sorted(s, k, v);
    if s.len() > 0 && s[0].0 != k && !lex_lt(k, s[0].0) {
        lemma_insert_sorted_members(s.drop_first(), k, v);
        let t = insert_sorted(s.drop_first(), k, v);
        assert forall|i: int| 0 <= i < r.len() implies r[i] == (k, v) || s.contains(r[i]) by {
            if i == 0 {
                assert(r[0] == s[0]);
            } else {
                assert(r[i] == t[i - 1]);
                if t[i - 1] != (k, v) {
                    let j = choose|j: int| 0 <= j < s.drop_first().len() && s.drop_first()[j] == t[i - 1];
                    assert(s[j + 1] == r[i]);
                }
            }
        }
    } else if s.len() > 0 && s[0].0 == k {
        assert forall|i: int| 0 <= i < r.len() implies r[i] == (k, v) || s.contains(r[i]) by {
            if i > 0 {
                assert(r[i] == s[i]);
            }
        }
    } else if s.len() > 0 {
        assert forall|i: int| 0 <= i < r.len() implies r[i] == (k, v) || s.contains(r[i]) by {
            if i > 0 {
                assert(r[i] == s[i - 1]);
            }
        }
    }
}

/// Every entry that `collect` yields is one that `keeps` accepts.
proof fn lemma_collect_kept(ps: Seq<EntryModel>, baseline: Option<Seq<EntryModel>>)
    ensures
        forall|i: int| 0 <= i < collect(ps, baseline).len() ==> keeps(#[trigger] collect(ps, baseline)[i], baseline),
    decreases ps.len(),
{
    if ps.len() > 0 {
        let prev = collect(ps.drop_last(), baseline);
        let p = ps.last();
        lemma_collect_kept(ps.drop_last(), baseline);
        if keeps(p, baseline) {
            lemma_insert_sorted_members(prev, p.0, p.1);
            let r = insert_sorted(prev, p.0, p.1);
            assert forall|i: int| 0 <= i < r.len() implies keeps(#[trigger] r[i], baseline) by {
                if r[i] != (p.0, p.1) {
                    let j = choose|j: int| 0 <= j < prev.len() && prev[j] == r[i];
                    assert(keeps(prev[j], baseline));
                }
            }
        }
    }
}

/// Every entry parsed against a baseline is new to it or differs from it.
pub proof fn lemma_parse_entries_changed(doc: Seq<char>, baseline: Seq<EntryModel>)
    ensures
        forall|i: int| 0 <= i < parse_catalog(doc, Some(baseline)).len() ==>
            lookup(baseline, (#[trigger] parse_catalog(doc, Some(baseline))[i]).0)
                != Some(parse_catalog(doc, Some(baseline))[i].1),
{
    lemma_collect_kept(document_pairs(doc), Some(baseline));
}

/// A parsed catalog never holds an entry with an empty message-id (the
/// catalog header), whether or not a baseline is given.
pub proof fn lemma_parse_has_no_empty_id(doc: Seq<char>, baseline: Option<Seq<EntryModel>>)
    ensures
        forall|i: int| 0 <= i < parse_catalog(doc, baseline).len()
            ==> (#[trigger] parse_catalog(doc, baseline)[i]).0.len() > 0,
{
    lemma_collect_kept(document_pairs(doc), baseline);
}

/// When every pair with id `k` carries `v` and the baseline maps `k` to `v`,
/// the collected snapshot has no entry for `k`.
proof fn lemma_collect_drops_unchanged(ps: Seq<EntryModel>, b: Seq<EntryModel>, k: Seq<char>, v: Seq<char>)
    requires
        lookup(b, k) == Some(v),
        forall|i: int| 0 <= i < ps.len() && (#[trigger] ps[i]).0 == k ==> ps[i].1 == v,
    ensures
        lookup(collect(ps, Some(b)), k) is None,
    decreases ps.len(),
{
    if ps.len() > 0 {
        let prev = collect(ps.drop_last(), Some(b));
        let p = ps.last();
        assert forall|i: int| 0 <= i < ps.drop_last().len() && (#[trigger] ps.drop_last()[i]).0 == k
            implies ps.drop_last()[i].1 == v by {
            assert(ps.drop_last()[i] == ps[i]);
        }
        lemma_collect_drops_unchanged(ps.drop_last(), b, k, v);
        if keeps(p, Some(b)) {
            lemma_lookup_insert_sorted(prev, p.0, p.1, k);
            assert(ps[ps.len() - 1] == p);
        }
    }
}

/// Filtering is a no-op on unchanged entries: when the baseline maps `k` to
/// `v` and every pair of the new document with id `k` carries `v`, the
/// catalog parsed against that baseline has no entry for `k`.
pub proof fn lemma_parse_skips_unchanged(doc: Seq<char>, baseline: Seq<EntryModel>, k: Seq<char>, v: Seq<char>)
    requires
        lookup(baseline, k) == Some(v),
        forall|i: int| 0 <= i < document_pairs(doc).len() && (#[trigger] document_pairs(doc)[i]).0 == k
            ==> document_pairs(doc)[i].1 == v,
    ensures
        lookup(parse_catalog(doc, Some(baseline)), k) is None,
{
    lemma_collect_drops_unchanged(document_pairs(doc), baseline, k, v);
}

/// The view of an optional string slice.
pub open spec fn opt_str(o: Option<&str>) -> Option<Seq<char>> {
    match o {
        Some(s) => Some(s@),
        None => None,
    }
}

/// The changed entries of a file and the snapshot of its old revision.
/// Without an old revision (a new file) every entry counts as changed and
/// the old snapshot is empty.
pub open spec fn diff_spec(old: Option<Seq<char>>, new: Seq<char>) -> (Seq<EntryModel>, Seq<EntryModel>) {
    match old {
        None => (parse_catalog(new, None), Seq::empty()),
        Some(o) => (parse_catalog(new, Some(parse_catalog(o, None))), parse_catalog(o, None)),
    }
}

/// What differencing two revisions of a catalog gives.
pub struct CatalogDiff {
    /// Entries that are new or whose string changed.
    pub changed: Snapshot,
    /// The whole old revision.
    pub old: Snapshot,
}

impl CatalogDiff {
    /// Whether this is the difference of `old` and `new`.
    pub open spec fn models(&self, old: Option<Seq<char>>, new: Seq<char>) -> bool {
        (self.changed@, self.old@) == diff_spec(old, new)
    }
}

/// Differences two revisions of a catalog document.
pub fn diff_catalogs(old: Option<&str>, new: &str) -> (r: CatalogDiff)
    ensures
        r.models(opt_str(old), new@),
{
    match old {
        None => CatalogDiff { changed: blob_parser(new, None), old: Snapshot::new() },
        Some(o) => {
            let old_snapshot = blob_parser(o, None);
            let changed = blob_parser(new, Some(&old_snapshot));
            CatalogDiff { changed, old: old_snapshot }
        },
    }
}

/// Each changed entry is absent from the old snapshot or holds another
/// string there.
pub proof fn lemma_diff_entries_changed(old: Option<Seq<char>>, new: Seq<char>)
    ensures
        forall|i: int| 0 <= i < diff_spec(old, new).0.len() ==>
            lookup(diff_spec(old, new).1, (#[trigger] diff_spec(old, new).0[i]).0)
                != Some(diff_spec(old, new).0[i].1),
{
    match old {
        None => {},
        Some(o) => lemma_parse_entries_changed(new, parse_catalog(o, None)),
    }
}

/// Differencing is a pure function of the two documents: two diffs of the
/// same revisions hold the same changed entries, in the same order, and
/// the same old snapshot.
pub proof fn lemma_diff_deterministic(old: Option<Seq<char>>, new: Seq<char>, a: CatalogDiff, b: CatalogDiff)
    requires
        a.models(old, new),
        b.models(old, new),
    ensures
        a.changed@ == b.changed@,
        a.old@ == b.old@,
{
}

/// Inserting into a list sorted by id keeps it sorted.
proof fn lemma_insert_sorted_keeps_order(s: Seq<EntryModel>, k: Seq<char>, v: Seq<char>)
    requires
        sorted_ids(s),
    ensures
        sorted_ids(insert_sorted(s, k, v)),
    decreases s.len(),
{
    let r = insert_sorted(s, k, v);
    if s.len() == 0 {
    } else if s[0].0 == k {
        assert forall|i: int, j: int| 0 <= i < j < r.len() implies lex_lt(#[trigger] r[i].0, #[trigger] r[j].0) by {
            assert(r[j] == s[j]);
            if i > 0 {
                assert(r[i] == s[i]);
            }
            assert(lex_lt(s[i].0, s[j].0));
        }
    } else if lex_lt(k, s[0].0) {
        assert forall|i: int, j: int| 0 <= i < j < r.len() implies lex_lt(#[trigger] r[i].0, #[trigger] r[j].0) by {
            assert(r[j] == s[j - 1]);
            if i > 0 {
                assert(r[i] == s[i - 1]);
                assert(lex_lt(s[i - 1].0, s[j - 1].0));
            } else if j > 1 {
                assert(lex_lt(s[0].0, s[j - 1].0));
                lemma_lex_lt_transitive(k, s[0].0, s[j - 1].0);
            }
        }
    } else {
        let rest = s.drop_first();
        assert forall|i: int, j: int| 0 <= i < j < rest.len() implies lex_lt(#[trigger] rest[i].0, #[trigger] rest[j].0) by {
            assert(lex_lt(s[i + 1].0, s[j + 1].0));
        }
        lemma_insert_sorted_keeps_order(rest, k, v);
        lemma_insert_sorted_members(rest, k, v);
        lemma_lex_lt_total(s[0].0, k);
        let t = insert_sorted(rest, k, v);
        assert forall|i: int, j: int| 0 <= i < j < r.len() implies lex_lt(#[trigger] r[i].0, #[trigger] r[j].0) by {
            assert(r[j] == t[j - 1]);
            if i > 0 {
                assert(r[i] == t[i - 1]);
            } else {
                assert(r[0] == s[0]);
                if t[j - 1] != (k, v) {
                    let m = choose|m: int| 0 <= m < rest.len() && rest[m] == t[j - 1];
                    assert(lex_lt(s[0].0, s[m + 1].0));
                }
            }
        }
    }
}

/// Collected entries are sorted by id.
proof fn lemma_collect_sorted(ps: Seq<EntryModel>, baseline: Option<Seq<EntryModel>>)
    ensures
        sorted_ids(collect(ps, baseline)),
    decreases ps.len(),
{
    if ps.len() > 0 {
        lemma_collect_sorted(ps.drop_last(), baseline);
        let p = ps.last();
        if keeps(p, baseline) {
            lemma_insert_sorted_keeps_order(collect(ps.drop_last(), baseline), p.0, p.1);
        }
    }
}

/// A parsed catalog lists its entries in strictly increasing id order, so
/// each id occurs once and the order of iteration is fixed by the contents.
pub proof fn lemma_parse_sorted(doc: Seq<char>, baseline: Option<Seq<EntryModel>>)
    ensures
        sorted_ids(parse_catalog(doc, baseline)),
{
    lemma_collect_sorted(document_pairs(doc), baseline);
}

} // verus!
