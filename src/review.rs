//! The review session: for each subject, look up an earlier decision by
//! identity key, ask the user only where needed, and keep the store and
//! the counters up to date.
use vstd::prelude::*;
use crate::store::AnswerStore;
use crate::subject::{QuestionSubject, subject_key, fast_forwards, is_obviously_equal};
use crate::text::chars_of;

verus! {

/// The outcome of one prompt.
#[derive(PartialEq, Eq, Structural, Clone, Copy, Debug)]
pub enum Decision {
    Approved,
    Rejected,
    Invalid,
    Deferred,
}

/// The decision a character of an answer stands for: 'y' approves, 'n'
/// rejects, 'l' defers.
pub open spec fn decision_of_char(c: char) -> Option<Decision> {
    if c == 'y' {
        Some(Decision::Approved)
    } else if c == 'n' {
        Some(Decision::Rejected)
    } else if c == 'l' {
        Some(Decision::Deferred)
    } else {
        None
    }
}

/// The decision an answer line gives: the last recognised character in
/// it, or `Invalid` when it holds none.
pub open spec fn scan_answer(s: Seq<char>) -> Decision
    decreases s.len(),
{
    if s.len() == 0 {
        Decision::Invalid
    } else {
        match decision_of_char(s.last()) {
            Some(d) => d,
            None => scan_answer(s.drop_last()),
        }
    }
}

/// Reads a user's answer line: the last of 'y', 'n', 'l' in it
/// decides; a line without any of them is `Invalid`.
pub fn decision_from_answer(line: &str) -> (r: Decision)
    ensures
        r == scan_answer(line@),
{
    let cs = chars_of(line);
    let mut resp = Decision::Invalid;
    let mut i: usize = 0;
    assert(cs@.take(0) =~= Seq::<char>::empty());
    while i < cs.len()
        invariant
            i <= cs.len(),
            resp == scan_answer(cs@.take(i as int)),
        decreases cs.len() - i,
    {
        let c = cs[i];
        assert(cs@.take(i + 1).drop_last() =~= cs@.take(i as int));
        assert(cs@.take(i + 1).last() == c);
        if c == 'y' {
            resp = Decision::Approved;
        } else if c == 'n' {
            resp = Decision::Rejected;
        } else if c == 'l' {
            resp = Decision::Deferred;
        }
        i = i + 1;
    }
    assert(cs@.take(cs.len() as int) =~= cs@);
    resp
}

/// The state of a session: the store, the counters, and the keys the
/// user was asked about, in order.
pub struct SessionModel {
    pub store: Map<Seq<char>, bool>,
    pub approved_new: nat,
    pub approved_loaded: nat,
    pub rejected_new: nat,
    pub rejected_loaded: nat,
    pub deferred: nat,
    pub prompted: Seq<Seq<char>>,
}

/// A session over `store` before any subject.
pub open spec fn start_model(store: Map<Seq<char>, bool>) -> SessionModel {
    SessionModel {
        store,
        approved_new: 0,
        approved_loaded: 0,
        rejected_new: 0,
        rejected_loaded: 0,
        deferred: 0,
        prompted: Seq::empty(),
    }
}

/// Whether the user is asked about `s`: its key is unseen and it does
/// not fast-forward, or it was rejected and rejected keys are asked again.
pub open spec fn needs_prompt(store: Map<Seq<char>, bool>, s: QuestionSubject, reask: bool) -> bool {
    let k = subject_key(s);
    if !store.contains_key(k) {
        !fast_forwards(s)
    } else {
        !store[k] && reask
    }
}

/// A subject settled without asking: an unseen key is approved by
/// fast-forward, a stored decision is counted as loaded.
pub open spec fn pass(m: SessionModel, s: QuestionSubject) -> SessionModel {
    let k = subject_key(s);
    if !m.store.contains_key(k) {
        SessionModel { store: m.store.insert(k, true), approved_new: m.approved_new + 1, ..m }
    } else if m.store[k] {
        SessionModel { approved_loaded: m.approved_loaded + 1, ..m }
    } else {
        SessionModel { rejected_loaded: m.rejected_loaded + 1, ..m }
    }
}

/// A subject settled by the user's decision `d`.
pub open spec fn settle(m: SessionModel, s: QuestionSubject, d: Decision) -> SessionModel {
    let k = subject_key(s);
    let m1 = SessionModel { prompted: m.prompted.push(k), ..m };
    if !m.store.contains_key(k) {
        match d {
            Decision::Approved => SessionModel { store: m.store.insert(k, true), approved_new: m.approved_new + 1, ..m1 },
            Decision::Rejected => SessionModel { store: m.store.insert(k, false), rejected_new: m.rejected_new + 1, ..m1 },
            Decision::Invalid => m1,
            Decision::Deferred => SessionModel { deferred: m.deferred + 1, ..m1 },
        }
    } else {
        match d {
            Decision::Approved => SessionModel { store: m.store.insert(k, true), approved_new: m.approved_new + 1, ..m1 },
            Decision::Rejected => SessionModel { rejected_loaded: m.rejected_loaded + 1, ..m1 },
            Decision::Invalid => m1,
            Decision::Deferred => SessionModel { store: m.store.remove(k), deferred: m.deferred + 1, ..m1 },
        }
    }
}

/// The `i`-th answer, or `Invalid` past the end.
pub open spec fn answer_at(answers: Seq<Decision>, i: int) -> Decision {
    if 0 <= i < answers.len() {
        answers[i]
    } else {
        Decision::Invalid
    }
}

/// A whole session over `subjects` in order, starting from `store`; the
/// user's answers are taken from `answers`, one per prompt.
pub open spec fn run_session(
    store: Map<Seq<char>, bool>,
    subjects: Seq<QuestionSubject>,
    answers: Seq<Decision>,
    reask: bool,
) -> SessionModel
    decreases subjects.len(),
{
    if subjects.len() == 0 {
        start_model(store)
    } else {
        let prev = run_session(store, subjects.drop_last(), answers, reask);
        let s = subjects.last();
        if needs_prompt(prev.store, s, reask) {
            settle(prev, s, answer_at(answers, prev.prompted.len() as int))
        } else {
            pass(prev, s)
        }
    }
}

/// The run depends on the answers that it consumes only.
proof fn lemma_run_answers_prefix(
    store: Map<Seq<char>, bool>,
    subjects: Seq<QuestionSubject>,
    answers: Seq<Decision>,
    d: Decision,
    reask: bool,
)
    requires
        run_session(store, subjects, answers, reask).prompted.len() <= answers.len(),
    ensures
        run_session(store, subjects, answers.push(d), reask) == run_session(store, subjects, answers, reask),
    decreases subjects.len(),
{
    if subjects.len() > 0 {
        lemma_run_prompted_grows(store, subjects, answers, reask);
        lemma_run_answers_prefix(store, subjects.drop_last(), answers, d, reask);
        let prev = run_session(store, subjects.drop_last(), answers, reask);
        if needs_prompt(prev.store, subjects.last(), reask) {
            assert(answers.push(d)[prev.prompted.len() as int] == answers[prev.prompted.len() as int]);
        }
    }
}

/// Each subject adds at most one prompt.
proof fn lemma_run_prompted_grows(
    store: Map<Seq<char>, bool>,
    subjects: Seq<QuestionSubject>,
    answers: Seq<Decision>,
    reask: bool,
)
    requires
        subjects.len() > 0,
    ensures
        run_session(store, subjects.drop_last(), answers, reask).prompted.len()
            <= run_session(store, subjects, answers, reask).prompted.len(),
{
}

/// A fast-forward: a subject whose key is unseen and whose new translation
/// equals its original text up to case is not asked about, and is recorded
/// as approved.
pub proof fn lemma_fast_forward(m: SessionModel, s: QuestionSubject, reask: bool)
    requires
        !m.store.contains_key(subject_key(s)),
        fast_forwards(s),
    ensures
        !needs_prompt(m.store, s, reask),
        pass(m, s).store == m.store.insert(subject_key(s), true),
        pass(m, s).approved_new == m.approved_new + 1,
{
}

/// Once approved, never asked again: when the store a session starts from
/// approves key `k`, no subject with that key is prompted in the session
/// and `k` is still approved at its end.
pub proof fn lemma_approved_never_prompted(
    store: Map<Seq<char>, bool>,
    subjects: Seq<QuestionSubject>,
    answers: Seq<Decision>,
    reask: bool,
    k: Seq<char>,
)
    requires
        store.contains_key(k),
        store[k],
    ensures
        !run_session(store, subjects, answers, reask).prompted.contains(k),
        run_session(store, subjects, answers, reask).store.contains_key(k),
        run_session(store, subjects, answers, reask).store[k],
    decreases subjects.len(),
{
    if subjects.len() > 0 {
        lemma_approved_never_prompted(store, subjects.drop_last(), answers, reask, k);
        let prev = run_session(store, subjects.drop_last(), answers, reask);
        let s = subjects.last();
        if needs_prompt(prev.store, s, reask) {
            assert(subject_key(s) != k);
            let d = answer_at(answers, prev.prompted.len() as int);
            let r = settle(prev, s, d);
            assert(r.prompted == prev.prompted.push(subject_key(s)));
            assert forall|i: int| 0 <= i < r.prompted.len() implies r.prompted[i] != k by {
                if i < prev.prompted.len() {
                    assert(r.prompted[i] == prev.prompted[i]);
                }
            }
        }
    }
}

/// Defer, then ask again: deferring a rejected key that is asked again
/// removes it from the store, so a later session treats it as unseen (it
/// asks about it unless it fast-forwards).
pub proof fn lemma_defer_forgets(m: SessionModel, s: QuestionSubject, t: QuestionSubject, reask: bool, later_reask: bool)
    requires
        m.store.contains_key(subject_key(s)),
        !m.store[subject_key(s)],
        reask,
        subject_key(t) == subject_key(s),
    ensures
        needs_prompt(m.store, s, reask),
        !settle(m, s, Decision::Deferred).store.contains_key(subject_key(s)),
        settle(m, s, Decision::Deferred).deferred == m.deferred + 1,
        needs_prompt(settle(m, s, Decision::Deferred).store, t, later_reask) == !fast_forwards(t),
{
}

/// What a step of the session did.
#[derive(PartialEq, Eq, Structural, Clone, Copy, Debug)]
pub enum ReviewStep {
    /// The subject at this position was approved by fast-forward.
    FastForwarded(usize),
    /// The subject at this position was approved before.
    AlreadyApproved(usize),
    /// The subject at this position was rejected before and is not asked again.
    AlreadyRejected(usize),
    /// The user is to be asked about the subject at this position.
    Ask(usize),
    /// Every subject is settled.
    Finished,
}

/// The counters of a session.
#[derive(Clone, Copy, Debug)]
pub struct ReviewSummary {
    pub approved_new: usize,
    pub approved_loaded: usize,
    pub rejected_new: usize,
    pub rejected_loaded: usize,
    pub deferred: usize,
}

impl ReviewSummary {
    /// A review succeeded when nothing was rejected and nothing deferred.
    pub fn succeeded(&self) -> (r: bool)
        ensures
            r == (self.rejected_new == 0 && self.rejected_loaded == 0 && self.deferred == 0),
    {
        self.rejected_new == 0 && self.rejected_loaded == 0 && self.deferred == 0
    }
}

/// A review session over an ordered list of subjects.
pub struct ReviewSession {
    subjects: Vec<QuestionSubject>,
    next: usize,
    awaiting: bool,
    store: AnswerStore,
    summary: ReviewSummary,
    reask_rejected: bool,
    initial: Ghost<Map<Seq<char>, bool>>,
    answers: Ghost<Seq<Decision>>,
    prompted: Ghost<Seq<Seq<char>>>,
}

impl ReviewSession {
    /// The subjects, in order.
    pub closed spec fn subjects(&self) -> Seq<QuestionSubject> {
        self.subjects@
    }

    /// How many subjects are settled.
    pub closed spec fn position(&self) -> nat {
        self.next as nat
    }

    /// Whether the session waits for the user's decision on the subject
    /// at `position`.
    pub closed spec fn awaiting(&self) -> bool {
        self.awaiting
    }

    /// Whether rejected keys are asked again.
    pub closed spec fn reask(&self) -> bool {
        self.reask_rejected
    }

    /// The store the session started from.
    pub closed spec fn initial_store(&self) -> Map<Seq<char>, bool> {
        self.initial@
    }

    /// The user's decisions so far.
    pub closed spec fn answers(&self) -> Seq<Decision> {
        self.answers@
    }

    /// The store, the counters and the prompted keys.
    pub closed spec fn current(&self) -> SessionModel {
        SessionModel {
            store: self.store@,
            approved_new: self.summary.approved_new as nat,
            approved_loaded: self.summary.approved_loaded as nat,
            rejected_new: self.summary.rejected_new as nat,
            rejected_loaded: self.summary.rejected_loaded as nat,
            deferred: self.summary.deferred as nat,
            prompted: self.prompted@,
        }
    }

    /// The session is the run over the settled subjects.
    pub closed spec fn wf(&self) -> bool {
        &&& self.store.wf()
        &&& self.next <= self.subjects@.len()
        &&& self.current() == run_session(self.initial@, self.subjects@.take(self.next as int), self.answers@, self.reask_rejected)
        &&& self.answers@.len() == self.prompted@.len()
        &&& self.awaiting ==> self.next < self.subjects@.len()
            && needs_prompt(self.store@, self.subjects@[self.next as int], self.reask_rejected)
        &&& self.summary.approved_new + self.summary.approved_loaded + self.summary.rejected_new
            + self.summary.rejected_loaded + self.summary.deferred <= self.next
    }

    /// Starts a session over `subjects` with the decisions of `store`.
    pub fn new(subjects: Vec<QuestionSubject>, store: AnswerStore, reask_rejected: bool) -> (r: ReviewSession)
        requires
            store.wf(),
        ensures
            r.wf(),
            r.subjects() == subjects@,
            r.position() == 0,
            !r.awaiting(),
            r.reask() == reask_rejected,
            r.initial_store() == store@,
            r.answers() == Seq::<Decision>::empty(),
            r.current() == start_model(store@),
    {
        let ghost initial = store@;
        let r = ReviewSession {
            subjects,
            next: 0,
            awaiting: false,
            store,
            summary: ReviewSummary {
                approved_new: 0,
                approved_loaded: 0,
                rejected_new: 0,
                rejected_loaded: 0,
                deferred: 0,
            },
            reask_rejected,
            initial: Ghost(initial),
            answers: Ghost(Seq::empty()),
            prompted: Ghost(Seq::empty()),
        };
        assert(r.subjects@.take(0) =~= Seq::<QuestionSubject>::empty());
        r
    }

    /// Settles subjects that need no prompt, one per call, and says what it
    /// did; stops at a subject the user must decide (`Ask`), or at the
    /// end (`Finished`). While a decision is awaited it changes nothing.
    pub fn step(&mut self) -> (r: ReviewStep)
        requires
            old(self).wf(),
        ensures
            final(self).wf(),
            final(self).subjects() == old(self).subjects(),
            final(self).reask() == old(self).reask(),
            final(self).initial_store() == old(self).initial_store(),
            final(self).answers() == old(self).answers(),
            old(self).awaiting() ==> r == ReviewStep::Ask(old(self).position() as usize)
                && final(self).awaiting() && final(self).position() == old(self).position()
                && final(self).current() == old(self).current(),
            !old(self).awaiting() && old(self).position() == old(self).subjects().len() ==>
                r == ReviewStep::Finished && !final(self).awaiting()
                && final(self).position() == old(self).position()
                && final(self).current() == old(self).current(),
            !old(self).awaiting() && old(self).position() < old(self).subjects().len() ==>
                step_outcome(*final(self), *old(self), r),
    {
        if self.awaiting {
            return ReviewStep::Ask(self.next);
        }
        if self.next == self.subjects.len() {
            return ReviewStep::Finished;
        }
        let i = self.next;
        let ghost sv = self.subjects@;
        let ghost prev = self.current();
        proof {
            assert(sv.take(i + 1).drop_last() =~= sv.take(i as int));
            assert(sv.take(i + 1).last() == sv[i as int]);
        }
        let id = self.subjects[i].get_subject_id();
        let key = chars_of(id.as_str());
        match self.store.get_chars(&key) {
            None => {
                if is_obviously_equal(&self.subjects[i]) {
                    self.store.set_chars(key, true);
                    self.summary.approved_new = self.summary.approved_new + 1;
                    self.next = i + 1;
                    ReviewStep::FastForwarded(i)
                } else {
                    self.awaiting = true;
                    ReviewStep::Ask(i)
                }
            },
            Some(true) => {
                self.summary.approved_loaded = self.summary.approved_loaded + 1;
                self.next = i + 1;
                ReviewStep::AlreadyApproved(i)
            },
            Some(false) => {
                if self.reask_rejected {
                    self.awaiting = true;
                    ReviewStep::Ask(i)
                } else {
                    self.summary.rejected_loaded = self.summary.rejected_loaded + 1;
                    self.next = i + 1;
                    ReviewStep::AlreadyRejected(i)
                }
            },
        }
    }

    /// Applies the user's decision on the awaited subject and moves to
    /// the next one. Without an awaited subject it changes nothing.
    pub fn answer(&mut self, d: Decision)
        requires
            old(self).wf(),
        ensures
            final(self).wf(),
            final(self).subjects() == old(self).subjects(),
            final(self).reask() == old(self).reask(),
            final(self).initial_store() == old(self).initial_store(),
            !final(self).awaiting(),
            old(self).awaiting() ==> final(self).position() == old(self).position() + 1
                && final(self).answers() == old(self).answers().push(d)
                && final(self).current() == settle(
                    old(self).current(),
                    old(self).subjects()[old(self).position() as int],
                    d,
                ),
            !old(self).awaiting() ==> final(self).position() == old(self).position()
                && final(self).answers() == old(self).answers()
                && final(self).current() == old(self).current(),
    {
        if !self.awaiting {
            return;
        }
        let i = self.next;
        let n = self.subjects.len();
        assert(i < n);
        let ghost sv = self.subjects@;
        let ghost answers = self.answers@;
        proof {
            assert(sv.take(i + 1).drop_last() =~= sv.take(i as int));
            assert(sv.take(i + 1).last() == sv[i as int]);
            lemma_run_answers_prefix(self.initial@, sv.take(i as int), answers, d, self.reask_rejected);
            assert(answers.push(d)[answers.len() as int] == d);
        }
        let id = self.subjects[i].get_subject_id();
        let key = chars_of(id.as_str());
        let ghost k = key@;
        match self.store.get_chars(&key) {
            None => {
                match d {
                    Decision::Approved => {
                        self.store.set_chars(key, true);
                        self.summary.approved_new = self.summary.approved_new + 1;
                    },
                    Decision::Rejected => {
                        self.store.set_chars(key, false);
                        self.summary.rejected_new = self.summary.rejected_new + 1;
                    },
                    Decision::Invalid => {},
                    Decision::Deferred => {
                        self.summary.deferred = self.summary.deferred + 1;
                    },
                }
            },
            Some(_) => {
                match d {
                    Decision::Approved => {
                        self.store.set_chars(key, true);
                        self.summary.approved_new = self.summary.approved_new + 1;
                    },
                    Decision::Rejected => {
                        self.summary.rejected_loaded = self.summary.rejected_loaded + 1;
                    },
                    Decision::Invalid => {},
                    Decision::Deferred => {
                        self.store.remove_chars(&key);
                        self.summary.deferred = self.summary.deferred + 1;
                    },
                }
            },
        }
        self.answers = Ghost(answers.push(d));
        self.prompted = Ghost(self.prompted@.push(k));
        self.next = i + 1;
        self.awaiting = false;
    }

    /// The subject at position `i`.
    pub fn subject(&self, i: usize) -> (r: &QuestionSubject)
        requires
            i < self.subjects().len(),
        ensures
            *r == self.subjects()[i as int],
    {
        &self.subjects[i]
    }

    /// The number of subjects.
    pub fn len(&self) -> (r: usize)
        ensures
            r == self.subjects().len(),
    {
        self.subjects.len()
    }

    /// The counters so far.
    pub fn summary(&self) -> (r: ReviewSummary)
        ensures
            r.approved_new == self.current().approved_new,
            r.approved_loaded == self.current().approved_loaded,
            r.rejected_new == self.current().rejected_new,
            r.rejected_loaded == self.current().rejected_loaded,
            r.deferred == self.current().deferred,
    {
        self.summary
    }

    /// The store with the decisions so far.
    pub fn store(&self) -> (r: &AnswerStore)
        requires
            self.wf(),
        ensures
            r.wf(),
            r@ == self.current().store,
    {
        &self.store
    }

    /// Ends the session and hands back its store.
    pub fn into_store(self) -> (r: AnswerStore)
        requires
            self.wf(),
        ensures
            r.wf(),
            r@ == self.current().store,
    {
        self.store
    }
}

/// What `step` did on a subject that was not yet settled: it asks about it
/// when a prompt is needed, and settles it without one otherwise.
pub open spec fn step_outcome(after: ReviewSession, before: ReviewSession, r: ReviewStep) -> bool {
    let i = before.position();
    let s = before.subjects()[i as int];
    let m = before.current();
    let k = subject_key(s);
    if needs_prompt(m.store, s, before.reask()) {
        &&& r == ReviewStep::Ask(i as usize)
        &&& after.awaiting()
        &&& after.position() == i
        &&& after.current() == m
    } else {
        &&& !after.awaiting()
        &&& after.position() == i + 1
        &&& after.current() == pass(m, s)
        &&& r == (if !m.store.contains_key(k) {
            ReviewStep::FastForwarded(i as usize)
        } else if m.store[k] {
            ReviewStep::AlreadyApproved(i as usize)
        } else {
            ReviewStep::AlreadyRejected(i as usize)
        })
    }
}

} // verus!
