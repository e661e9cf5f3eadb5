use snowball::config::Config;
use snowball::identity::Transaction;
use snowball::state::TxState;
use snowball::status::Status;

fn feed(st: &mut TxState, s: Status, times: u32, cfg: &Config) -> u32 {
    let mut decided: u32 = 0;
    let mut i: u32 = 0;
    while i < times {
        if st.on_response(s, cfg) {
            decided += 1;
        }
        i += 1;
    }
    decided
}

#[test]
fn new_state_is_fresh() {
    let tx = Transaction { nonce: 5, data: 2 };
    let st = TxState::new(tx, Status::Valid);
    assert_eq!(st.epoch, 0);
    assert_eq!(st.tx, tx);
    assert_eq!(st.status, Status::Valid);
    assert!(st.responses.is_empty());
    assert!(!st.is_final);
    assert_eq!(st.cnt_valid, 0);
    assert_eq!(st.cnt_invalid, 0);
    assert_eq!(st.cnt, 0);
    assert_eq!(st.last_status, Status::Invalid);
    assert!(st.has_room());
}

#[test]
fn counters_are_kept_per_belief() {
    let mut st = TxState::new(Transaction { nonce: 5, data: 2 }, Status::Valid);
    assert_eq!(st.incr_status(&Status::Valid), 1);
    assert_eq!(st.incr_status(&Status::Valid), 2);
    assert_eq!(st.incr_status(&Status::Invalid), 1);
    assert_eq!(st.status_count(&Status::Valid), 2);
    assert_eq!(st.status_count(&Status::Invalid), 1);
}

#[test]
fn advance_clears_the_round() {
    let mut st = TxState::new(Transaction { nonce: 5, data: 2 }, Status::Valid);
    st.responses.push(Status::Valid);
    st.responses.push(Status::Invalid);
    st.advance();
    assert_eq!(st.epoch, 1);
    assert!(st.responses.is_empty());
    assert_eq!(st.status, Status::Valid);
}

#[test]
fn count_responses_counts_equal_entries() {
    let mut st = TxState::new(Transaction { nonce: 5, data: 2 }, Status::Valid);
    assert_eq!(st.count_responses(Status::Valid), 0);
    st.responses = vec![Status::Valid, Status::Invalid, Status::Valid, Status::Valid];
    assert_eq!(st.count_responses(Status::Valid), 3);
    assert_eq!(st.count_responses(Status::Invalid), 1);
}

#[test]
fn no_quorum_only_records_the_response() {
    let cfg = Config::standard();
    let mut st = TxState::new(Transaction { nonce: 5, data: 2 }, Status::Valid);
    assert!(!st.on_response(Status::Invalid, &cfg));
    assert!(!st.on_response(Status::Invalid, &cfg));
    assert_eq!(st.responses, vec![Status::Invalid, Status::Invalid]);
    assert_eq!(st.status, Status::Valid);
    assert_eq!((st.cnt_valid, st.cnt_invalid, st.cnt, st.epoch), (0, 0, 0, 0));
}

#[test]
fn unanimous_valid_run_is_final_after_sixteen_responses() {
    let cfg = Config::standard();
    let mut st = TxState::new(Transaction { nonce: 1, data: 3 }, Status::Valid);
    assert_eq!(feed(&mut st, Status::Valid, 3, &cfg), 0);
    assert_eq!((st.cnt_valid, st.cnt, st.epoch), (1, 0, 0));
    assert_eq!(st.last_status, Status::Valid);
    assert_eq!(feed(&mut st, Status::Valid, 3, &cfg), 0);
    assert_eq!((st.cnt_valid, st.cnt, st.epoch), (4, 3, 0));
    assert_eq!(st.responses.len(), 6);
    assert_eq!(feed(&mut st, Status::Valid, 1, &cfg), 0);
    assert_eq!((st.cnt_valid, st.cnt, st.epoch), (5, 4, 1));
    assert!(st.responses.is_empty());
    assert_eq!(feed(&mut st, Status::Valid, 2, &cfg), 0);
    assert_eq!((st.cnt_valid, st.cnt, st.epoch), (5, 4, 1));
    assert_eq!(feed(&mut st, Status::Valid, 1, &cfg), 0);
    assert_eq!((st.cnt_valid, st.cnt, st.epoch), (6, 5, 2));
    assert_eq!(feed(&mut st, Status::Valid, 3, &cfg), 0);
    assert_eq!(st.epoch, 3);
    assert_eq!(feed(&mut st, Status::Valid, 2, &cfg), 0);
    assert!(!st.is_final);
    assert!(st.on_response(Status::Valid, &cfg));
    assert!(st.is_final);
    assert_eq!((st.cnt_valid, st.cnt_invalid, st.cnt, st.epoch), (8, 0, 7, 4));
    assert_eq!(st.status, Status::Valid);
}

#[test]
fn unanimous_invalid_run_is_final_after_fifteen_responses() {
    let cfg = Config::standard();
    let mut st = TxState::new(Transaction { nonce: 1, data: 9 }, Status::Invalid);
    assert_eq!(feed(&mut st, Status::Invalid, 14, &cfg), 0);
    assert_eq!(st.epoch, 3);
    assert!(st.on_response(Status::Invalid, &cfg));
    assert!(st.is_final);
    assert_eq!((st.cnt_valid, st.cnt_invalid, st.cnt, st.epoch), (0, 7, 7, 4));
    assert_eq!(st.status, Status::Invalid);
}

#[test]
fn final_state_is_frozen() {
    let cfg = Config::standard();
    let mut st = TxState::new(Transaction { nonce: 1, data: 3 }, Status::Valid);
    assert_eq!(feed(&mut st, Status::Valid, 16, &cfg), 1);
    assert!(st.is_final);
    assert_eq!(feed(&mut st, Status::Invalid, 10, &cfg), 0);
    assert_eq!(feed(&mut st, Status::Valid, 10, &cfg), 0);
    assert!(st.is_final);
    assert_eq!(st.status, Status::Valid);
    assert!(st.responses.is_empty());
    assert_eq!((st.cnt_valid, st.cnt_invalid, st.cnt, st.epoch), (8, 0, 7, 4));
}

#[test]
fn belief_flips_when_the_other_side_has_more_confidence() {
    let cfg = Config::standard();
    let mut st = TxState::new(Transaction { nonce: 1, data: 3 }, Status::Valid);
    assert_eq!(feed(&mut st, Status::Invalid, 2, &cfg), 0);
    assert_eq!(st.status, Status::Valid);
    assert!(!st.on_response(Status::Invalid, &cfg));
    assert_eq!(st.status, Status::Invalid);
    assert_eq!((st.cnt_valid, st.cnt_invalid, st.cnt, st.epoch), (0, 1, 1, 0));
}

#[test]
fn belief_stays_while_confidence_is_not_exceeded() {
    let cfg = Config::standard();
    let mut st = TxState::new(Transaction { nonce: 1, data: 3 }, Status::Valid);
    feed(&mut st, Status::Valid, 7, &cfg);
    assert_eq!((st.cnt_valid, st.cnt, st.epoch), (5, 4, 1));
    feed(&mut st, Status::Invalid, 3, &cfg);
    assert_eq!(st.status, Status::Valid);
    assert_eq!((st.cnt_valid, st.cnt_invalid), (5, 1));
}

#[test]
fn a_quorum_for_the_other_belief_resets_the_streak() {
    let cfg = Config::standard();
    let mut st = TxState::new(Transaction { nonce: 1, data: 3 }, Status::Valid);
    feed(&mut st, Status::Valid, 7, &cfg);
    assert_eq!(st.cnt, 4);
    assert_eq!(st.last_status, Status::Valid);
    feed(&mut st, Status::Invalid, 3, &cfg);
    assert_eq!(st.cnt, 0);
    assert_eq!(st.last_status, Status::Invalid);
    assert_eq!(st.epoch, 1);
    assert_eq!(st.responses.len(), 3);
    feed(&mut st, Status::Invalid, 1, &cfg);
    assert_eq!(st.cnt, 1);
}

#[test]
fn quorum_counts_only_the_received_belief() {
    let cfg = Config::standard();
    let mut st = TxState::new(Transaction { nonce: 1, data: 3 }, Status::Valid);
    st.on_response(Status::Valid, &cfg);
    st.on_response(Status::Invalid, &cfg);
    st.on_response(Status::Valid, &cfg);
    st.on_response(Status::Invalid, &cfg);
    assert_eq!((st.cnt_valid, st.cnt_invalid), (0, 0));
    st.on_response(Status::Valid, &cfg);
    assert_eq!((st.cnt_valid, st.cnt_invalid), (1, 0));
    st.on_response(Status::Invalid, &cfg);
    assert_eq!((st.cnt_valid, st.cnt_invalid), (1, 1));
    assert_eq!(st.status, Status::Valid);
}

#[test]
fn a_counter_at_the_limit_leaves_no_room() {
    let mut st = TxState::new(Transaction { nonce: 1, data: 3 }, Status::Valid);
    st.cnt_valid = u32::MAX;
    assert!(!st.has_room());
    st.is_final = true;
    assert!(st.has_room());
}

#[test]
fn epochs_for_finality_follow_the_configuration() {
    let cfg = Config::new(2, 1, 1, 0, 1).unwrap();
    let mut st = TxState::new(Transaction { nonce: 1, data: 9 }, Status::Invalid);
    assert!(!st.on_response(Status::Invalid, &cfg));
    assert!(st.on_response(Status::Invalid, &cfg));
    assert!(st.is_final);
    assert_eq!((st.cnt_invalid, st.cnt, st.epoch), (1, 1, 1));
}
