//! Catalog snapshots: the parsed (message-id, message-string) entries of one
//! revision of a PO file, ordered by message-id.
use vstd::prelude::*;
use crate::text::{lex_lt, lemma_lex_lt_asymmetric, lemma_lex_lt_irreflexive, lemma_lex_lt_total,
    chars_lt, chars_eq, chars_of, string_of};

verus! {

/// One catalog entry as a pair of character sequences: (message-id, message-string).
pub type EntryModel = (Seq<char>, Seq<char>);

/// Puts `(k, v)` into `s`: it replaces the first entry with id `k`, or else
/// goes before the first entry whose id is greater than `k`.
pub open spec fn insert_sorted(s: Seq<EntryModel>, k: Seq<char>, v: Seq<char>) -> Seq<EntryModel>
    decreases s.len(),
{
    if s.len() == 0 {
        seq![(k, v)]
    } else if s[0].0 == k {
        seq![(k, v)] + s.drop_first()
    } else if lex_lt(k, s[0].0) {
        seq![(k, v)] + s
    } else {
        seq![s[0]] + insert_sorted(s.drop_first(), k, v)
    }
}

/// The message-string that `s` holds for message-id `k`, if any.
pub open spec fn lookup(s: Seq<EntryModel>, k: Seq<char>) -> Option<Seq<char>>
    decreases s.len(),
{
    if s.len() == 0 {
        None
    } else if s[0].0 == k {
        Some(s[0].1)
    } else {
        lookup(s.drop_first(), k)
    }
}

/// Ids strictly increasing in `lex_lt` order: every id at most once.
pub open spec fn sorted_ids(s: Seq<EntryModel>) -> bool {
    forall|i: int, j: int| 0 <= i < j < s.len() ==> lex_lt(#[trigger] s[i].0, #[trigger] s[j].0)
}

/// After an insertion, `k` maps to `v` and every other id keeps its string.
pub proof fn lemma_lookup_insert_sorted(s: Seq<EntryModel>, k: Seq<char>, v: Seq<char>, q: Seq<char>)
    ensures
        lookup(insert_sorted(s, k, v), q) == (if q == k { Some(v) } else { lookup(s, q) }),
    decreases s.len(),
{
    if s.len() == 0 {
        let t = seq![(k, v)];
        assert(t[0] == (k, v));
        assert(t.drop_first() =~= Seq::<EntryModel>::empty());
        assert(lookup(t.drop_first(), q) is None);
    } else if s[0].0 == k {
        let t = seq![(k, v)] + s.drop_first();
        assert(t[0] == (k, v));
        assert(t.drop_first() =~= s.drop_first());
    } else if lex_lt(k, s[0].0) {
        let t = seq![(k, v)] + s;
        assert(t[0] == (k, v));
        assert(t.drop_first() =~= s);
    } else {
        lemma_lookup_insert_sorted(s.drop_first(), k, v, q);
        let r = insert_sorted(s.drop_first(), k, v);
        let t = seq![s[0]] + r;
        assert(t[0] == s[0]);
        assert(t.drop_first() =~= r);
    }
}

/// The view of a stored entry.
pub open spec fn entry_view(e: (Vec<char>, Vec<char>)) -> EntryModel {
    (e.0@, e.1@)
}

/// The parsed entries of one catalog revision, ordered by message-id.
pub struct Snapshot {
    entries: Vec<(Vec<char>, Vec<char>)>,
}

impl View for Snapshot {
    type V = Seq<EntryModel>;

    closed spec fn view(&self) -> Seq<EntryModel> {
        self.entries@.map_values(|e: (Vec<char>, Vec<char>)| entry_view(e))
    }
}

impl Snapshot {
    /// A snapshot without entries.
    pub fn new() -> (r: Snapshot)
        ensures
            r@ == Seq::<EntryModel>::empty(),
    {
        let r = Snapshot { entries: Vec::new() };
        assert(r@ =~= Seq::<EntryModel>::empty());
        r
    }

    /// Number of entries.
    pub fn len(&self) -> (r: usize)
        ensures
            r == self@.len(),
    {
        self.entries.len()
    }

    /// Whether the snapshot holds no entry.
    pub fn is_empty(&self) -> (r: bool)
        ensures
            r == (self@.len() == 0),
    {
        self.entries.len() == 0
    }

    /// Inserts an entry, replacing the string stored under the same id.
    pub fn insert_chars(&mut self, k: Vec<char>, v: Vec<char>)
        ensures
            final(self)@ == insert_sorted(old(self)@, k@, v@),
    {
        let ghost s = self@;
        let ghost kv = k@;
        let ghost vv = v@;
        let n = self.entries.len();
        let mut i: usize = 0;
        assert(s.take(0) + s.skip(0) =~= s);
        while i < n && chars_lt(&self.entries[i].0, &k)
            invariant
                n == self.entries.len(),
                s == self@,
                kv == k@,
                vv == v@,
                i <= n,
                insert_sorted(s, kv, vv) == s.take(i as int) + insert_sorted(s.skip(i as int), kv, vv),
            decreases n - i,
        {
            proof {
                let e = s[i as int];
                lemma_lex_lt_irreflexive(e.0);
                lemma_lex_lt_asymmetric(e.0, kv);
                let t = s.skip(i as int);
                assert(t[0] == e);
                assert(t.drop_first() =~= s.skip(i + 1));
                assert(s.take(i as int) + seq![e] =~= s.take(i + 1));
                assert(insert_sorted(t, kv, vv) == seq![e] + insert_sorted(s.skip(i + 1), kv, vv));
                assert(s.take(i as int) + (seq![e] + insert_sorted(s.skip(i + 1), kv, vv))
                    =~= s.take(i + 1) + insert_sorted(s.skip(i + 1), kv, vv));
            }
            i = i + 1;
        }
        if i < n && chars_eq(&self.entries[i].0, &k) {
            proof {
                let t = s.skip(i as int);
                assert(t.drop_first() =~= s.skip(i + 1));
            }
            self.entries.set(i, (k, v));
            proof {
                let t = s.skip(i as int);
                assert(self@ =~= s.take(i as int) + (seq![(kv, vv)] + t.drop_first()));
            }
        } else {
            proof {
                if i < n {
                    lemma_lex_lt_total(s[i as int].0, kv);
                    assert(s.skip(i as int)[0] == s[i as int]);
                }
            }
            self.entries.insert(i, (k, v));
            proof {
                let t = s.skip(i as int);
                assert(self@ =~= s.take(i as int) + (seq![(kv, vv)] + t));
            }
        }
    }

    /// The string stored under id `k`, if any.
    pub fn lookup_chars(&self, k: &Vec<char>) -> (r: Option<&Vec<char>>)
        ensures
            match r {
                Some(v) => lookup(self@, k@) == Some(v@),
                None => lookup(self@, k@) is None,
            },
    {
        let ghost s = self@;
        let mut i: usize = 0;
        assert(s.skip(0) =~= s);
        while i < self.entries.len()
            invariant
                s == self@,
                i <= self.entries.len(),
                lookup(s, k@) == lookup(s.skip(i as int), k@),
            decreases self.entries.len() - i,
        {
            assert(s.skip(i as int)[0] == s[i as int]);
            assert(s.skip(i as int).drop_first() =~= s.skip(i + 1));
            if chars_eq(&self.entries[i].0, k) {
                return Some(&self.entries[i].1);
            }
            i = i + 1;
        }
        None
    }

    /// The string stored under message-id `id`, if any.
    pub fn get(&self, id: &str) -> (r: Option<String>)
        ensures
            match r {
                Some(v) => lookup(self@, id@) == Some(v@),
                None => lookup(self@, id@) is None,
            },
    {
        let k = chars_of(id);
        match self.lookup_chars(&k) {
            Some(v) => Some(string_of(v)),
            None => None,
        }
    }

    /// The entries as (message-id, message-string) strings, in order.
    pub fn entries(&self) -> (r: Vec<(String, String)>)
        ensures
            r@.len() == self@.len(),
            forall|i: int| 0 <= i < r@.len() ==> (#[trigger] r@[i].0@, r@[i].1@) == self@[i],
    {
        let mut r: Vec<(String, String)> = Vec::new();
        let mut i: usize = 0;
        while i < self.entries.len()
            invariant
                i <= self.entries.len(),
                r@.len() == i,
                forall|j: int| 0 <= j < i ==> (#[trigger] r@[j].0@, r@[j].1@) == self@[j],
            decreases self.entries.len() - i,
        {
            let e = &self.entries[i];
            r.push((string_of(&e.0), string_of(&e.1)));
            i = i + 1;
        }
        r
    }

    /// The id and the string of the entry at `i`.
    pub fn entry_at(&self, i: usize) -> (r: (&Vec<char>, &Vec<char>))
        requires
            i < self@.len(),
        ensures
            (r.0@, r.1@) == self@[i as int],
    {
        (&self.entries[i].0, &self.entries[i].1)
    }
}

} // verus!
