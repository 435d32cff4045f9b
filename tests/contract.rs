use poll_ballot::contract::{instantiate, TallyEngine};
use poll_ballot::error::ContractError;
use poll_ballot::msg::{ExecuteMsg, InstantiateMsg, QueryMsg, QueryResponse};
use poll_ballot::state::{Ballot, Poll};

const ADDR1: &str = "addr1";
const ADDR2: &str = "addr2";

fn attr(k: &str, v: &str) -> (String, String) {
    (k.to_string(), v.to_string())
}

fn setup() -> TallyEngine {
    let (engine, _res) = instantiate(ADDR1.to_string(), InstantiateMsg { admin: None });
    engine
}

fn create(uuid: &str, question: &str, options: &[&str]) -> ExecuteMsg {
    ExecuteMsg::CreatePoll {
        uuid: uuid.to_string(),
        question: question.to_string(),
        options: options.iter().map(|o| o.to_string()).collect(),
    }
}

fn vote(uuid: &str, option: &str) -> ExecuteMsg {
    ExecuteMsg::Vote { uuid: uuid.to_string(), option: option.to_string() }
}

fn languages(uuid: &str) -> ExecuteMsg {
    create(
        uuid,
        "What's your favourite programming language?",
        &["Rust", "Go", "JavaScript", "Haskell"],
    )
}

fn get_poll(engine: &TallyEngine, uuid: &str) -> Option<Poll> {
    match engine.query(QueryMsg::GetPoll { uuid: uuid.to_string() }) {
        QueryResponse::Poll(r) => r.poll,
        other => panic!("unexpected answer {:?}", other),
    }
}

fn get_all(engine: &TallyEngine) -> Vec<Poll> {
    match engine.query(QueryMsg::AllPolls {}) {
        QueryResponse::AllPolls(r) => r.polls,
        other => panic!("unexpected answer {:?}", other),
    }
}

fn get_vote(engine: &TallyEngine, uuid: &str, address: &str) -> Option<Ballot> {
    match engine.query(QueryMsg::GetVote { uuid: uuid.to_string(), address: address.to_string() }) {
        QueryResponse::Vote(r) => r.ballot,
        other => panic!("unexpected answer {:?}", other),
    }
}

fn counts(engine: &TallyEngine, uuid: &str) -> Vec<u64> {
    get_poll(engine, uuid).unwrap().options.iter().map(|o| o.1).collect()
}

#[test]
fn test_instantiate_addr1() {
    let (_engine, res) = instantiate(ADDR1.to_string(), InstantiateMsg { admin: None });
    assert_eq!(res.attributes, vec![attr("action", "instantiate"), attr("admin", ADDR1)])
}

#[test]
fn test_instantiate_addr2() {
    let (_engine, res) = instantiate(ADDR2.to_string(), InstantiateMsg { admin: None });
    assert_eq!(res.attributes, vec![attr("action", "instantiate"), attr("admin", ADDR2)])
}

#[test]
fn test_instantiate_addr2_with_admin() {
    let (engine, res) =
        instantiate(ADDR1.to_string(), InstantiateMsg { admin: Some(ADDR2.to_string()) });
    assert_eq!(res.attributes, vec![attr("action", "instantiate"), attr("admin", ADDR2),]);
    assert_eq!(engine.admin(), ADDR2);
}

#[test]
fn test_execute_create_poll_valid() {
    let mut engine = setup();
    let _res = engine.execute(ADDR1.to_string(), languages("uuid")).unwrap();
}

#[test]
fn test_execute_create_poll_invalid() {
    let mut engine = setup();
    let msg = create(
        "some_id",
        "What's your favourite number?",
        &["1", "2", "3", "4", "5", "6", "7", "8", "9", "10", "11"],
    );
    let _err = engine.execute(ADDR1.to_string(), msg).unwrap_err();
}

#[test]
fn test_execute_vote_valid() {
    let mut engine = setup();
    let _res = engine.execute(ADDR1.to_string(), languages("uuid")).unwrap();
    let _res = engine.execute(ADDR1.to_string(), vote("uuid", "Rust")).unwrap();
    let _res = engine.execute(ADDR1.to_string(), vote("uuid", "Go")).unwrap();
}

#[test]
fn test_execute_vote_invalid() {
    let mut engine = setup();
    let _err = engine.execute(ADDR1.to_string(), vote("uuid", "Rust")).unwrap_err();
    let _res = engine.execute(ADDR1.to_string(), languages("uuid")).unwrap();
    let _err = engine.execute(ADDR1.to_string(), vote("uuid", "Java")).unwrap_err();
}

#[test]
fn test_query_all_polls() {
    let mut engine = setup();
    let _res = engine.execute(ADDR1.to_string(), languages("uuid")).unwrap();
    let msg = create("uuid_uuid", "What's your favourite number?", &["One", "Two", "Three"]);
    let _res = engine.execute(ADDR1.to_string(), msg).unwrap();
    let polls = get_all(&engine);
    assert_eq!(polls.len(), 2);
}

#[test]
fn test_query_poll() {
    let mut engine = setup();
    let _res = engine.execute(ADDR1.to_string(), languages("uuid")).unwrap();
    assert!(get_poll(&engine, "uuid").is_some());
    assert!(get_poll(&engine, "uuid_id_not_exist").is_none());
}

#[test]
fn test_query_vote() {
    let mut engine = setup();
    let _res = engine.execute(ADDR1.to_string(), languages("uuid")).unwrap();
    let _res = engine.execute(ADDR1.to_string(), vote("uuid", "Rust")).unwrap();
    assert!(get_vote(&engine, "uuid", ADDR1).is_some());
    assert!(get_vote(&engine, "uuid_2", ADDR2).is_none());
}

#[test]
fn switching_vote_moves_the_count() {
    let mut engine = setup();
    engine.execute("creator".to_string(), create("p", "Which?", &["A", "B"])).unwrap();
    engine.execute("X".to_string(), vote("p", "A")).unwrap();
    assert_eq!(counts(&engine, "p"), vec![1, 0]);
    engine.execute("X".to_string(), vote("p", "B")).unwrap();
    assert_eq!(counts(&engine, "p"), vec![0, 1]);
    engine.execute("X".to_string(), vote("p", "B")).unwrap();
    assert_eq!(counts(&engine, "p"), vec![0, 1]);
    assert_eq!(get_vote(&engine, "p", "X"), Some(Ballot { option: "B".to_string() }));
}

#[test]
fn two_voters_are_counted_apart() {
    let mut engine = setup();
    engine.execute("creator".to_string(), create("p", "Which?", &["A", "B"])).unwrap();
    engine.execute("X".to_string(), vote("p", "A")).unwrap();
    engine.execute("Y".to_string(), vote("p", "A")).unwrap();
    assert_eq!(counts(&engine, "p"), vec![2, 0]);
    engine.execute("Y".to_string(), vote("p", "B")).unwrap();
    assert_eq!(counts(&engine, "p"), vec![1, 1]);
}

#[test]
fn repeat_vote_leaves_counts_alone() {
    let mut engine = setup();
    engine.execute("c".to_string(), create("p", "Q", &["A", "B", "C"])).unwrap();
    engine.execute("X".to_string(), vote("p", "C")).unwrap();
    let before = get_poll(&engine, "p");
    engine.execute("X".to_string(), vote("p", "C")).unwrap();
    assert_eq!(get_poll(&engine, "p"), before);
    assert_eq!(counts(&engine, "p"), vec![0, 0, 1]);
}

#[test]
fn created_poll_reads_back_with_zero_counts() {
    let mut engine = setup();
    let res = engine.execute("alice".to_string(), create("p1", "Best fruit?", &["Apple", "Pear"])).unwrap();
    assert_eq!(res.attributes, vec![attr("action", "create_poll"), attr("poll_id", "p1")]);
    let poll = get_poll(&engine, "p1").unwrap();
    assert_eq!(
        poll,
        Poll {
            creator: "alice".to_string(),
            question: "Best fruit?".to_string(),
            options: vec![("Apple".to_string(), 0), ("Pear".to_string(), 0)],
        }
    );
}

#[test]
fn eleven_options_are_refused_and_nothing_is_stored() {
    let mut engine = setup();
    let msg = create("p", "Q", &["1", "2", "3", "4", "5", "6", "7", "8", "9", "10", "11"]);
    assert_eq!(engine.execute("c".to_string(), msg).unwrap_err(), ContractError::TooManyOptions);
    assert!(get_poll(&engine, "p").is_none());
    assert!(get_all(&engine).is_empty());
}

#[test]
fn ten_options_are_accepted() {
    let mut engine = setup();
    let msg = create("p", "Q", &["1", "2", "3", "4", "5", "6", "7", "8", "9", "10"]);
    engine.execute("c".to_string(), msg).unwrap();
    assert_eq!(counts(&engine, "p"), vec![0; 10]);
}

#[test]
fn a_poll_without_options_is_accepted() {
    let mut engine = setup();
    engine.execute("c".to_string(), create("p", "Q", &[])).unwrap();
    assert_eq!(get_poll(&engine, "p").unwrap().options, vec![]);
    let err = engine.execute("X".to_string(), vote("p", "A")).unwrap_err();
    assert_eq!(err, ContractError::OptionNotFound);
}

#[test]
fn duplicate_identifier_is_refused() {
    let mut engine = setup();
    engine.execute("c".to_string(), create("p", "First", &["A"])).unwrap();
    let err = engine.execute("d".to_string(), create("p", "Second", &["B"])).unwrap_err();
    assert_eq!(err, ContractError::PollExists);
    assert_eq!(get_poll(&engine, "p").unwrap().question, "First");
}

#[test]
fn too_many_options_is_checked_before_the_identifier() {
    let mut engine = setup();
    engine.execute("c".to_string(), create("p", "First", &["A"])).unwrap();
    let msg = create("p", "Q", &["1", "2", "3", "4", "5", "6", "7", "8", "9", "10", "11"]);
    assert_eq!(engine.execute("c".to_string(), msg).unwrap_err(), ContractError::TooManyOptions);
}

#[test]
fn vote_on_missing_poll_is_refused() {
    let mut engine = setup();
    let err = engine.execute("X".to_string(), vote("nope", "A")).unwrap_err();
    assert_eq!(err, ContractError::PollNotFound);
    assert!(get_vote(&engine, "nope", "X").is_none());
}

#[test]
fn vote_for_unknown_option_changes_nothing() {
    let mut engine = setup();
    engine.execute("c".to_string(), create("p", "Q", &["A", "B"])).unwrap();
    engine.execute("X".to_string(), vote("p", "A")).unwrap();
    let err = engine.execute("X".to_string(), vote("p", "Z")).unwrap_err();
    assert_eq!(err, ContractError::OptionNotFound);
    assert_eq!(counts(&engine, "p"), vec![1, 0]);
    assert_eq!(get_vote(&engine, "p", "X"), Some(Ballot { option: "A".to_string() }));
    let err = engine.execute("Y".to_string(), vote("p", "Z")).unwrap_err();
    assert_eq!(err, ContractError::OptionNotFound);
    assert!(get_vote(&engine, "p", "Y").is_none());
}

#[test]
fn all_polls_come_in_ascending_identifier_order() {
    let mut engine = setup();
    for id in ["m", "b", "zeta", "a", "ab", "Z"] {
        engine.execute("c".to_string(), create(id, id, &["yes"])).unwrap();
    }
    let questions: Vec<String> = get_all(&engine).into_iter().map(|p| p.question).collect();
    assert_eq!(questions, vec!["Z", "a", "ab", "b", "m", "zeta"]);
}

#[test]
fn listing_does_not_depend_on_creation_order() {
    let mut first = setup();
    let mut second = setup();
    for id in ["uuid_uuid", "uuid", "äpfel", "apple"] {
        first.execute("c".to_string(), create(id, id, &["x"])).unwrap();
    }
    for id in ["apple", "uuid", "äpfel", "uuid_uuid"] {
        second.execute("c".to_string(), create(id, id, &["x"])).unwrap();
    }
    let a: Vec<String> = get_all(&first).into_iter().map(|p| p.question).collect();
    let b: Vec<String> = get_all(&second).into_iter().map(|p| p.question).collect();
    assert_eq!(a, b);
    assert_eq!(a, vec!["apple", "uuid", "uuid_uuid", "äpfel"]);
}

#[test]
fn counts_add_up_to_ballots() {
    let mut engine = setup();
    engine.execute("c".to_string(), create("p", "Q", &["A", "B", "C"])).unwrap();
    engine.execute("c".to_string(), create("q", "Q", &["A", "B"])).unwrap();
    let moves = [
        ("v1", "p", "A"),
        ("v2", "p", "B"),
        ("v1", "p", "C"),
        ("v3", "q", "A"),
        ("v1", "q", "B"),
        ("v2", "p", "B"),
        ("v4", "p", "A"),
        ("v3", "q", "B"),
    ];
    for (voter, poll, option) in moves {
        engine.execute(voter.to_string(), vote(poll, option)).unwrap();
    }
    let voters = ["v1", "v2", "v3", "v4"];
    for poll in ["p", "q"] {
        let total: u64 = counts(&engine, poll).iter().sum();
        let ballots = voters.iter().filter(|v| get_vote(&engine, poll, v).is_some()).count();
        assert_eq!(total, ballots as u64);
    }
    assert_eq!(counts(&engine, "p"), vec![1, 1, 1]);
    assert_eq!(counts(&engine, "q"), vec![0, 2]);
}

#[test]
fn duplicate_labels_count_in_the_first_slot() {
    let mut engine = setup();
    engine.execute("c".to_string(), create("p", "Q", &["A", "B", "A"])).unwrap();
    engine.execute("X".to_string(), vote("p", "A")).unwrap();
    engine.execute("Y".to_string(), vote("p", "A")).unwrap();
    assert_eq!(counts(&engine, "p"), vec![2, 0, 0]);
    engine.execute("Y".to_string(), vote("p", "B")).unwrap();
    assert_eq!(counts(&engine, "p"), vec![1, 1, 0]);
}
