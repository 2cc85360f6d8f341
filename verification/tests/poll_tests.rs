use token_contract::engine::{finish_poll, initialize_poll, tally_report, vote, FinishReport,
    PollEngine};
use token_contract::errors::GovError;
use token_contract::ids::AccountId;
use token_contract::poll::{Poll, MAX_POLL_OPTIONS};

fn acct(n: u64) -> AccountId {
    AccountId(n, 0, 0, 0)
}

fn labels(names: &[&str]) -> Vec<String> {
    names.iter().map(|s| s.to_string()).collect()
}

fn engine_with_poll(names: &[&str]) -> PollEngine {
    let mut engine = PollEngine::new();
    let idx = initialize_poll(&mut engine, labels(names)).unwrap();
    assert_eq!(idx, 0);
    engine
}

#[test]
fn init_assigns_sequential_ids_from_one() {
    let engine = engine_with_poll(&["alpha", "beta", "gamma"]);
    let poll = &engine.polls[0];
    assert!(!poll.finished);
    assert_eq!(poll.options.len(), 3);
    for (i, opt) in poll.options.iter().enumerate() {
        assert_eq!(opt.id, (i + 1) as u8);
        assert_eq!(opt.votes, 0);
    }
    assert_eq!(poll.options[0].label, "alpha");
    assert_eq!(poll.options[1].label, "beta");
    assert_eq!(poll.options[2].label, "gamma");
}

#[test]
fn init_rejects_empty_option_list() {
    let mut engine = PollEngine::new();
    let r = initialize_poll(&mut engine, Vec::new());
    assert_eq!(r, Err(GovError::ValidationError));
    assert_eq!(engine.polls.len(), 0);
}

#[test]
fn init_rejects_list_over_capacity() {
    let mut engine = PollEngine::new();
    let many: Vec<String> = (0..MAX_POLL_OPTIONS + 1).map(|i| format!("option {}", i)).collect();
    let r = initialize_poll(&mut engine, many);
    assert_eq!(r, Err(GovError::ValidationError));
    assert_eq!(engine.polls.len(), 0);

    let exactly: Vec<String> = (0..MAX_POLL_OPTIONS).map(|i| format!("option {}", i)).collect();
    let r = initialize_poll(&mut engine, exactly);
    assert_eq!(r, Ok(0));
    assert_eq!(engine.polls[0].options.len(), MAX_POLL_OPTIONS);
    assert_eq!(engine.polls[0].options[MAX_POLL_OPTIONS - 1].id, MAX_POLL_OPTIONS as u8);
}

#[test]
fn init_rejects_over_long_label() {
    let mut engine = PollEngine::new();
    let r = initialize_poll(&mut engine, vec!["a".repeat(51)]);
    assert_eq!(r, Err(GovError::ValidationError));

    let r = initialize_poll(&mut engine, vec!["a".repeat(50)]);
    assert_eq!(r, Ok(0));
}

#[test]
fn poll_init_refuses_finished_poll() {
    let mut poll = Poll { options: Vec::new(), finished: true };
    let r = poll.init(labels(&["alpha"]));
    assert_eq!(r, Err(GovError::AlreadyFinished));
    assert!(poll.finished);
    assert_eq!(poll.options.len(), 0);
}

#[test]
fn vote_accumulates_power() {
    let mut engine = engine_with_poll(&["alpha", "beta"]);
    assert_eq!(vote(&mut engine, 0, 1, acct(10), 5), Ok(()));
    assert_eq!(vote(&mut engine, 0, 1, acct(11), 7), Ok(()));
    assert_eq!(vote(&mut engine, 0, 2, acct(12), 3), Ok(()));
    assert_eq!(engine.polls[0].options[0].votes, 12);
    assert_eq!(engine.polls[0].options[1].votes, 3);
    assert_eq!(engine.records.len(), 3);
    assert_eq!(engine.records[0].voter, acct(10));
    assert_eq!(engine.records[0].voted_option, 1);
    assert_eq!(engine.records[0].poll, 0);
}

#[test]
fn vote_rejects_unknown_poll() {
    let mut engine = engine_with_poll(&["alpha"]);
    assert_eq!(vote(&mut engine, 1, 1, acct(10), 5), Err(GovError::NotFound));
}

#[test]
fn vote_rejects_unknown_option() {
    let mut engine = engine_with_poll(&["alpha", "beta"]);
    assert_eq!(vote(&mut engine, 0, 3, acct(10), 5), Err(GovError::NotFound));
    assert_eq!(vote(&mut engine, 0, 0, acct(10), 5), Err(GovError::NotFound));
    assert_eq!(engine.records.len(), 0);
}

#[test]
fn vote_rejects_finished_poll() {
    let mut engine = engine_with_poll(&["alpha", "beta"]);
    vote(&mut engine, 0, 1, acct(10), 5).unwrap();
    finish_poll(&mut engine, 0).unwrap();
    assert_eq!(vote(&mut engine, 0, 1, acct(11), 5), Err(GovError::AlreadyFinished));
    assert_eq!(engine.polls[0].options[0].votes, 5);
}

#[test]
fn second_vote_by_same_voter_fails_and_changes_nothing() {
    let mut engine = engine_with_poll(&["alpha", "beta"]);
    assert_eq!(vote(&mut engine, 0, 1, acct(10), 5), Ok(()));
    let r = vote(&mut engine, 0, 2, acct(10), 9);
    assert_eq!(r, Err(GovError::AlreadyVoted));
    assert_eq!(engine.polls[0].options[0].votes, 5);
    assert_eq!(engine.polls[0].options[1].votes, 0);
    assert_eq!(engine.records.len(), 1);
}

#[test]
fn tallies_do_not_depend_on_vote_order() {
    let casts = [
        (1u8, acct(10), 5u64),
        (2u8, acct(11), 7u64),
        (1u8, acct(12), 11u64),
        (3u8, acct(13), 2u64),
    ];
    let mut forward = engine_with_poll(&["alpha", "beta", "gamma"]);
    for (opt, voter, power) in casts.iter() {
        vote(&mut forward, 0, *opt, *voter, *power).unwrap();
    }
    let mut backward = engine_with_poll(&["alpha", "beta", "gamma"]);
    for (opt, voter, power) in casts.iter().rev() {
        vote(&mut backward, 0, *opt, *voter, *power).unwrap();
    }
    for k in 0..3 {
        assert_eq!(forward.polls[0].options[k].votes, backward.polls[0].options[k].votes);
    }
    assert_eq!(forward.polls[0].options[0].votes, 16);
    assert_eq!(forward.polls[0].options[1].votes, 7);
    assert_eq!(forward.polls[0].options[2].votes, 2);
}

#[test]
fn vote_overflow_leaves_accumulator_at_pre_call_value() {
    let big = u64::MAX - 1;
    let mut engine = engine_with_poll(&["alpha"]);
    assert_eq!(vote(&mut engine, 0, 1, acct(10), big), Ok(()));
    assert_eq!(engine.polls[0].options[0].votes, big);
    let r = vote(&mut engine, 0, 1, acct(11), big);
    assert_eq!(r, Err(GovError::Overflow));
    assert_eq!(engine.polls[0].options[0].votes, big);
    assert_eq!(engine.records.len(), 1);

    // one more unit still fits
    assert_eq!(vote(&mut engine, 0, 1, acct(12), 1), Ok(()));
    assert_eq!(engine.polls[0].options[0].votes, u64::MAX);
}

#[test]
fn finish_poll_is_one_way_and_second_call_fails() {
    let mut engine = engine_with_poll(&["alpha", "beta"]);
    vote(&mut engine, 0, 1, acct(10), 4).unwrap();
    let first = finish_poll(&mut engine, 0);
    assert!(first.is_ok());
    assert!(engine.polls[0].finished);
    let polls_before = engine.polls.len();
    let r = finish_poll(&mut engine, 0);
    assert!(matches!(r, Err(GovError::AlreadyFinished)));
    assert_eq!(engine.polls.len(), polls_before);
    assert!(engine.polls[0].finished);
    assert_eq!(engine.polls[0].options[0].votes, 4);
}

#[test]
fn finish_poll_rejects_unknown_poll() {
    let mut engine = PollEngine::new();
    assert!(matches!(finish_poll(&mut engine, 0), Err(GovError::NotFound)));
}

#[test]
fn tie_spawns_new_poll_with_tied_options_reset() {
    let mut engine = engine_with_poll(&["alpha", "beta", "gamma"]);
    vote(&mut engine, 0, 1, acct(10), 10).unwrap();
    vote(&mut engine, 0, 2, acct(11), 10).unwrap();
    vote(&mut engine, 0, 3, acct(12), 5).unwrap();
    let r = finish_poll(&mut engine, 0).unwrap();
    match r {
        FinishReport::TieBreak { new_poll } => {
            assert_eq!(new_poll, 1);
            let tie = &engine.polls[1];
            assert!(!tie.finished);
            assert_eq!(tie.options.len(), 2);
            assert_eq!(tie.options[0].id, 1);
            assert_eq!(tie.options[0].label, "alpha");
            assert_eq!(tie.options[0].votes, 0);
            assert_eq!(tie.options[1].id, 2);
            assert_eq!(tie.options[1].label, "beta");
            assert_eq!(tie.options[1].votes, 0);
        },
        FinishReport::Winner { .. } => panic!("expected a tie-break poll"),
    }
    // the old poll is finished and otherwise untouched
    let old = &engine.polls[0];
    assert!(old.finished);
    assert_eq!(old.options[0].votes, 10);
    assert_eq!(old.options[1].votes, 10);
    assert_eq!(old.options[2].votes, 5);
    assert_eq!(engine.polls.len(), 2);
    // voters of the finished poll may vote again on the tie-break poll
    assert_eq!(vote(&mut engine, 1, 1, acct(10), 3), Ok(()));
}

#[test]
fn sole_winner_spawns_no_poll() {
    let mut engine = engine_with_poll(&["alpha", "beta"]);
    vote(&mut engine, 0, 1, acct(10), 10).unwrap();
    vote(&mut engine, 0, 2, acct(11), 5).unwrap();
    let r = finish_poll(&mut engine, 0).unwrap();
    match r {
        FinishReport::Winner { id, label } => {
            assert_eq!(id, 1);
            assert_eq!(label, "alpha");
        },
        FinishReport::TieBreak { .. } => panic!("expected a sole winner"),
    }
    assert_eq!(engine.polls.len(), 1);
    assert!(engine.polls[0].finished);
}

#[test]
fn calculate_winners_reports_max_and_all_tied() {
    let mut engine = engine_with_poll(&["alpha", "beta", "gamma"]);
    vote(&mut engine, 0, 1, acct(10), 8).unwrap();
    vote(&mut engine, 0, 3, acct(11), 8).unwrap();
    let (winners, max_v) = engine.polls[0].calculate_winners();
    assert_eq!(max_v, 8);
    assert_eq!(winners.len(), 2);
    assert_eq!(winners[0].id, 1);
    assert_eq!(winners[1].id, 3);
}

#[test]
fn winners_of_all_zero_poll_are_all_options() {
    let engine = engine_with_poll(&["alpha", "beta"]);
    let (winners, max_v) = engine.polls[0].calculate_winners();
    assert_eq!(max_v, 0);
    assert_eq!(winners.len(), 2);
}

#[test]
fn tally_report_returns_options_and_max() {
    let mut engine = engine_with_poll(&["alpha", "beta"]);
    vote(&mut engine, 0, 2, acct(10), 6).unwrap();
    let (options, max_v) = tally_report(&engine, 0).unwrap();
    assert_eq!(max_v, 6);
    assert_eq!(options.len(), 2);
    assert_eq!(options[0].id, 1);
    assert_eq!(options[0].label, "alpha");
    assert_eq!(options[0].votes, 0);
    assert_eq!(options[1].id, 2);
    assert_eq!(options[1].votes, 6);
    assert!(matches!(tally_report(&engine, 9), Err(GovError::NotFound)));
}

#[test]
fn init_from_previous_keeps_ids_and_labels() {
    let mut source = Poll { options: Vec::new(), finished: false };
    source.init(labels(&["alpha", "beta", "gamma"])).unwrap();
    source.vote(2, 9).unwrap();
    let (winners, _) = source.calculate_winners();
    let mut tie = Poll { options: Vec::new(), finished: true };
    assert_eq!(tie.init_from_previous(&winners), Ok(()));
    assert!(!tie.finished);
    assert_eq!(tie.options.len(), 1);
    assert_eq!(tie.options[0].id, 2);
    assert_eq!(tie.options[0].label, "beta");
    assert_eq!(tie.options[0].votes, 0);
}

#[test]
fn chained_tie_breaks_resolve_by_repeated_finish_calls() {
    let mut engine = engine_with_poll(&["alpha", "beta"]);
    vote(&mut engine, 0, 1, acct(10), 4).unwrap();
    vote(&mut engine, 0, 2, acct(11), 4).unwrap();
    let first = finish_poll(&mut engine, 0).unwrap();
    let tie_idx = match first {
        FinishReport::TieBreak { new_poll } => new_poll,
        FinishReport::Winner { .. } => panic!("expected a tie"),
    };
    vote(&mut engine, tie_idx, 2, acct(10), 1).unwrap();
    let second = finish_poll(&mut engine, tie_idx).unwrap();
    match second {
        FinishReport::Winner { id, label } => {
            assert_eq!(id, 2);
            assert_eq!(label, "beta");
        },
        FinishReport::TieBreak { .. } => panic!("expected a sole winner"),
    }
}
