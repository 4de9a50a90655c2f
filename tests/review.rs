use podiff_review::review::{decision_from_answer, Decision, ReviewSession, ReviewStep};
use podiff_review::store::AnswerStore;
use podiff_review::subject::{equal_ignoring_case, is_obviously_equal, QuestionSubject};

fn subject(orig: &str, newtrans: &str) -> QuestionSubject {
    QuestionSubject {
        commit_id: "c1".to_string(),
        from_filename: "po/de.po".to_string(),
        orig: orig.to_string(),
        old: None,
        new: "neu".to_string(),
        oldtrans: "<no old version available>".to_string(),
        newtrans: newtrans.to_string(),
    }
}

#[test]
fn last_recognised_character_decides() {
    assert_eq!(decision_from_answer("maybe no actually yes"), Decision::Approved);
}

#[test]
fn answer_characters() {
    assert_eq!(decision_from_answer("y"), Decision::Approved);
    assert_eq!(decision_from_answer("no"), Decision::Rejected);
    assert_eq!(decision_from_answer("later"), Decision::Deferred);
    assert_eq!(decision_from_answer("ok"), Decision::Invalid);
    assert_eq!(decision_from_answer(""), Decision::Invalid);
}

#[test]
fn identity_key_joins_commit_file_and_id() {
    let s = subject("hi", "Hallo");
    assert_eq!(s.get_subject_id(), "c1:po/de.po:hi");
    let mut t = subject("hi", "other");
    t.new = "changed".to_string();
    assert_eq!(t.get_subject_id(), s.get_subject_id());
}

#[test]
fn case_insensitive_equality() {
    assert!(equal_ignoring_case("Hello", "hELLO"));
    assert!(!equal_ignoring_case("Hello", "Hallo"));
    assert!(is_obviously_equal(&subject("OK", "ok")));
    assert!(!is_obviously_equal(&subject("hi", "Hallo")));
}

#[test]
fn fast_forward_is_approved_without_prompt() {
    let mut session = ReviewSession::new(vec![subject("Hello", "hello")], AnswerStore::new(), true);
    assert_eq!(session.step(), ReviewStep::FastForwarded(0));
    assert_eq!(session.step(), ReviewStep::Finished);
    assert_eq!(session.store().get("c1:po/de.po:Hello"), Some(true));
    let sum = session.summary();
    assert_eq!(sum.approved_new, 1);
    assert!(sum.succeeded());
}

#[test]
fn approved_key_is_not_asked_again() {
    let mut store = AnswerStore::new();
    store.set("c1:po/de.po:hi", true);
    let mut session = ReviewSession::new(vec![subject("hi", "Hallo")], store, true);
    assert_eq!(session.step(), ReviewStep::AlreadyApproved(0));
    assert_eq!(session.step(), ReviewStep::Finished);
    assert_eq!(session.summary().approved_loaded, 1);
    assert_eq!(session.store().get("c1:po/de.po:hi"), Some(true));
}

#[test]
fn unseen_subject_is_asked_and_recorded() {
    let mut session = ReviewSession::new(vec![subject("hi", "Hallo"), subject("bye", "Tschuess")], AnswerStore::new(), false);
    assert_eq!(session.step(), ReviewStep::Ask(0));
    assert_eq!(session.step(), ReviewStep::Ask(0));
    session.answer(Decision::Approved);
    assert_eq!(session.step(), ReviewStep::Ask(1));
    session.answer(Decision::Rejected);
    assert_eq!(session.step(), ReviewStep::Finished);
    let store = session.store();
    assert_eq!(store.get("c1:po/de.po:hi"), Some(true));
    assert_eq!(store.get("c1:po/de.po:bye"), Some(false));
    let sum = session.summary();
    assert_eq!((sum.approved_new, sum.rejected_new), (1, 1));
    assert!(!sum.succeeded());
}

#[test]
fn invalid_and_deferred_leave_store_alone() {
    let mut session = ReviewSession::new(vec![subject("a", "x"), subject("b", "y")], AnswerStore::new(), false);
    assert_eq!(session.step(), ReviewStep::Ask(0));
    session.answer(Decision::Invalid);
    assert_eq!(session.step(), ReviewStep::Ask(1));
    session.answer(Decision::Deferred);
    assert_eq!(session.step(), ReviewStep::Finished);
    assert_eq!(session.store().len(), 0);
    let sum = session.summary();
    assert_eq!(sum.deferred, 1);
    assert_eq!(sum.approved_new + sum.rejected_new, 0);
}

#[test]
fn rejected_key_without_reask_counts_as_rejected() {
    let mut store = AnswerStore::new();
    store.set("c1:po/de.po:hi", false);
    let mut session = ReviewSession::new(vec![subject("hi", "Hallo")], store, false);
    assert_eq!(session.step(), ReviewStep::AlreadyRejected(0));
    assert_eq!(session.summary().rejected_loaded, 1);
}

#[test]
fn reasked_rejection_can_be_approved_or_kept() {
    let mut store = AnswerStore::new();
    store.set("c1:po/de.po:a", false);
    store.set("c1:po/de.po:b", false);
    let mut session = ReviewSession::new(vec![subject("a", "x"), subject("b", "y")], store, true);
    assert_eq!(session.step(), ReviewStep::Ask(0));
    session.answer(Decision::Approved);
    assert_eq!(session.step(), ReviewStep::Ask(1));
    session.answer(Decision::Rejected);
    assert_eq!(session.store().get("c1:po/de.po:a"), Some(true));
    assert_eq!(session.store().get("c1:po/de.po:b"), Some(false));
    let sum = session.summary();
    assert_eq!((sum.approved_new, sum.rejected_loaded), (1, 1));
}

#[test]
fn deferred_rejection_is_forgotten_and_asked_next_time() {
    let mut store = AnswerStore::new();
    store.set("c1:po/de.po:hi", false);
    let mut session = ReviewSession::new(vec![subject("hi", "Hallo")], store, true);
    assert_eq!(session.step(), ReviewStep::Ask(0));
    session.answer(Decision::Deferred);
    assert_eq!(session.step(), ReviewStep::Finished);
    assert_eq!(session.store().get("c1:po/de.po:hi"), None);
    assert_eq!(session.summary().deferred, 1);
    let store = session.into_store();
    let mut again = ReviewSession::new(vec![subject("hi", "Hallo")], store, false);
    assert_eq!(again.step(), ReviewStep::Ask(0));
}

#[test]
fn answer_without_prompt_changes_nothing() {
    let mut session = ReviewSession::new(vec![subject("hi", "Hallo")], AnswerStore::new(), true);
    session.answer(Decision::Approved);
    assert_eq!(session.store().len(), 0);
    assert_eq!(session.step(), ReviewStep::Ask(0));
}

#[test]
fn store_replaces_decisions() {
    let mut store = AnswerStore::new();
    store.set("k", false);
    store.set("k", true);
    assert_eq!(store.len(), 1);
    assert_eq!(store.get("k"), Some(true));
    assert_eq!(store.entries(), vec![("k".to_string(), true)]);
    assert_eq!(store.get("other"), None);
}
