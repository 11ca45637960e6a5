//! Tests of the election-state operations: creation, voting, the rejection
//! taxonomy, and the query methods.

use votechain::blockchain::{count_votes, Blockchain, CreateElectionError, VoteError};

fn options(v: &[&str]) -> Vec<String> {
    v.iter().map(|s| s.to_string()).collect()
}

#[test]
fn duplicate_election_rejected_and_options_kept() {
    let mut st = Blockchain::new();
    assert!(st
        .create_election("E1".to_string(), options(&["a", "b"]), "alice".to_string())
        .is_ok());
    let second = st.create_election("E1".to_string(), options(&["a"]), "bob".to_string());
    assert_eq!(second, Err(CreateElectionError::ElectionAlreadyExists));
    let kept = st.get_election_options("E1").unwrap();
    assert_eq!(kept, &options(&["a", "b"]));
}

#[test]
fn vote_appends_entry_and_is_found() {
    let mut st = Blockchain::new();
    st.create_election("E1".to_string(), options(&["a", "b"]), "alice".to_string())
        .unwrap();
    let before = st.chain.len();
    let r = st.add_vote_operation("v1".to_string(), "E1".to_string(), "a".to_string());
    assert_eq!(r, Ok(()));
    assert_eq!(st.chain.len(), before + 1);
    let got = st.get_votes_by_user("v1", "E1");
    assert_eq!(got, Some(("E1".to_string(), "a".to_string())));
}

#[test]
fn second_vote_by_same_voter_rejected() {
    let mut st = Blockchain::new();
    st.create_election("E1".to_string(), options(&["a", "b"]), "alice".to_string())
        .unwrap();
    st.add_vote_operation("v1".to_string(), "E1".to_string(), "a".to_string())
        .unwrap();
    let len = st.chain.len();
    let again = st.add_vote_operation("v1".to_string(), "E1".to_string(), "b".to_string());
    assert_eq!(again, Err(VoteError::AlreadyVoted));
    assert_eq!(st.chain.len(), len);
}

#[test]
fn unknown_option_rejected() {
    let mut st = Blockchain::new();
    st.create_election("E1".to_string(), options(&["a", "b"]), "alice".to_string())
        .unwrap();
    let len = st.chain.len();
    let r = st.add_vote_operation("v2".to_string(), "E1".to_string(), "z".to_string());
    assert_eq!(r, Err(VoteError::InvalidOption));
    assert_eq!(st.chain.len(), len);
}

#[test]
fn unknown_election_rejected() {
    let mut st = Blockchain::new();
    st.create_election("E1".to_string(), options(&["a", "b"]), "alice".to_string())
        .unwrap();
    let r = st.add_vote_operation("v3".to_string(), "NOPE".to_string(), "a".to_string());
    assert_eq!(r, Err(VoteError::ElectionNotFound));
}

#[test]
fn repeated_attempts_yield_exactly_one_success() {
    // The store's lock serializes concurrent attempts; whatever their order,
    // the first by this voter succeeds and every later one is rejected.
    let mut st = Blockchain::new();
    st.create_election("E1".to_string(), options(&["a", "b"]), "alice".to_string())
        .unwrap();
    let mut successes: u32 = 0;
    for _ in 0..5 {
        match st.add_vote_operation("v1".to_string(), "E1".to_string(), "a".to_string()) {
            Ok(()) => successes += 1,
            Err(e) => assert_eq!(e, VoteError::AlreadyVoted),
        }
    }
    assert_eq!(successes, 1);
    assert_eq!(st.chain.len(), 2);
}

#[test]
fn results_and_tally() {
    let mut st = Blockchain::new();
    st.create_election(
        "E1".to_string(),
        options(&["a", "b", "c"]),
        "alice".to_string(),
    )
    .unwrap();
    st.add_vote_operation("v1".to_string(), "E1".to_string(), "a".to_string())
        .unwrap();
    st.add_vote_operation("v2".to_string(), "E1".to_string(), "a".to_string())
        .unwrap();
    st.add_vote_operation("v3".to_string(), "E1".to_string(), "b".to_string())
        .unwrap();
    let pairs = st.get_results_election("E1");
    assert_eq!(
        pairs,
        vec![
            ("E1".to_string(), "a".to_string()),
            ("E1".to_string(), "a".to_string()),
            ("E1".to_string(), "b".to_string()),
        ]
    );
    let opts = st.get_election_options("E1").unwrap().clone();
    let tally = count_votes(&opts, &pairs);
    assert_eq!(
        tally,
        vec![
            ("a".to_string(), 2),
            ("b".to_string(), 1),
            ("c".to_string(), 0),
        ]
    );
}

#[test]
fn votes_listed_per_user_in_chain_order() {
    let mut st = Blockchain::new();
    st.create_election("E1".to_string(), options(&["a", "b"]), "alice".to_string())
        .unwrap();
    st.create_election("E2".to_string(), options(&["x", "y"]), "alice".to_string())
        .unwrap();
    st.add_vote_operation("v1".to_string(), "E1".to_string(), "a".to_string())
        .unwrap();
    st.add_vote_operation("v1".to_string(), "E2".to_string(), "y".to_string())
        .unwrap();
    st.add_vote_operation("v2".to_string(), "E1".to_string(), "b".to_string())
        .unwrap();
    let mine = st.get_elections_by_user("v1");
    assert_eq!(
        mine,
        vec![
            ("E1".to_string(), "a".to_string()),
            ("E2".to_string(), "y".to_string()),
        ]
    );
    assert_eq!(st.get_votes_by_user("v1", "E2"), Some(("E2".to_string(), "y".to_string())));
    assert_eq!(st.get_votes_by_user("v2", "E2"), None);
}

#[test]
fn genesis_never_reported_as_a_vote() {
    let st = Blockchain::new();
    assert_eq!(st.get_elections_by_user(""), vec![]);
}

#[test]
fn creator_index_lists_created_elections() {
    let mut st = Blockchain::new();
    st.create_election("E1".to_string(), options(&["a"]), "alice".to_string())
        .unwrap();
    st.create_election("E2".to_string(), options(&["b"]), "alice".to_string())
        .unwrap();
    st.create_election("E3".to_string(), options(&["c"]), "bob".to_string())
        .unwrap();
    assert_eq!(
        st.get_elections_created_by_user("alice"),
        vec!["E1".to_string(), "E2".to_string()]
    );
    assert_eq!(st.get_elections_created_by_user("bob"), vec!["E3".to_string()]);
    assert_eq!(st.get_elections_created_by_user("carol"), Vec::<String>::new());
    // a rejected duplicate creation attributes nothing: each listing stays
    // duplicate free
    assert_eq!(
        st.create_election("E1".to_string(), options(&["a"]), "alice".to_string()),
        Err(CreateElectionError::ElectionAlreadyExists)
    );
    assert_eq!(
        st.create_election("E3".to_string(), options(&["c"]), "bob".to_string()),
        Err(CreateElectionError::ElectionAlreadyExists)
    );
    assert_eq!(
        st.get_elections_created_by_user("alice"),
        vec!["E1".to_string(), "E2".to_string()]
    );
    assert_eq!(st.get_elections_created_by_user("bob"), vec!["E3".to_string()]);
}

#[test]
fn duplicate_options_stored_once() {
    let mut st = Blockchain::new();
    st.create_election(
        "E1".to_string(),
        options(&["a", "b", "a", "a"]),
        "alice".to_string(),
    )
    .unwrap();
    assert_eq!(st.get_election_options("E1").unwrap(), &options(&["a", "b"]));
}

#[test]
fn empty_option_set_accepts_no_vote() {
    let mut st = Blockchain::new();
    st.create_election("E0".to_string(), Vec::new(), "alice".to_string())
        .unwrap();
    let r = st.add_vote_operation("v1".to_string(), "E0".to_string(), "a".to_string());
    assert_eq!(r, Err(VoteError::InvalidOption));
    assert_eq!(st.get_election_options("E0").unwrap(), &Vec::<String>::new());
}

#[test]
fn election_creation_appends_no_entry() {
    let mut st = Blockchain::new();
    let before = st.chain.len();
    st.create_election("E1".to_string(), options(&["a"]), "alice".to_string())
        .unwrap();
    assert_eq!(st.chain.len(), before);
}

#[test]
fn error_messages_match_server_wording() {
    assert_eq!(
        CreateElectionError::ElectionAlreadyExists.message(),
        "Election already exists"
    );
    assert_eq!(VoteError::ElectionNotFound.message(), "Election does not exist");
    assert_eq!(
        VoteError::InvalidOption.message(),
        "Vote option does not exist in this election"
    );
    assert_eq!(
        VoteError::AlreadyVoted.message(),
        "Voter has already voted in this election"
    );
}
