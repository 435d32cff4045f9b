use poll_ballot::ballot_ledger::BallotLedger;
use poll_ballot::poll_store::PollStore;
use poll_ballot::state::{Ballot, Poll};

fn poll(question: &str, options: &[(&str, u64)]) -> Poll {
    Poll {
        creator: "c".to_string(),
        question: question.to_string(),
        options: options.iter().map(|(l, c)| (l.to_string(), *c)).collect(),
    }
}

#[test]
fn poll_store_save_get_has() {
    let mut store = PollStore::new();
    assert!(!store.has(&"p".to_string()));
    assert_eq!(store.get(&"p".to_string()), None);
    store.save("p".to_string(), poll("first", &[("A", 0)]));
    assert!(store.has(&"p".to_string()));
    assert_eq!(store.get(&"p".to_string()), Some(poll("first", &[("A", 0)])));
    store.save("p".to_string(), poll("first", &[("A", 7)]));
    assert_eq!(store.get(&"p".to_string()), Some(poll("first", &[("A", 7)])));
    assert_eq!(store.list_all().len(), 1);
}

#[test]
fn poll_store_lists_in_ascending_order() {
    let mut store = PollStore::new();
    for id in ["c", "a", "b", "aa"] {
        store.save(id.to_string(), poll(id, &[]));
    }
    let questions: Vec<String> = store.list_all().into_iter().map(|p| p.question).collect();
    assert_eq!(questions, vec!["a", "aa", "b", "c"]);
}

#[test]
fn ballot_ledger_put_replaces() {
    let mut ledger = BallotLedger::new();
    let (x, p) = ("x".to_string(), "p".to_string());
    assert!(!ledger.has(&x, &p));
    ledger.put(x.clone(), p.clone(), Ballot { option: "A".to_string() });
    assert!(ledger.has(&x, &p));
    ledger.put(x.clone(), p.clone(), Ballot { option: "B".to_string() });
    assert_eq!(ledger.get(&x, &p), Some(Ballot { option: "B".to_string() }));
    assert_eq!(ledger.get(&x, &"q".to_string()), None);
    assert_eq!(ledger.get(&"y".to_string(), &p), None);
}

#[test]
fn poll_set_count_changes_one_slot() {
    let mut p = poll("q", &[("A", 1), ("B", 2)]);
    p.set_count(1, 9);
    assert_eq!(p, poll("q", &[("A", 1), ("B", 9)]));
    assert_eq!(p.snapshot(), p);
}
