use snowball::config::Config;
use snowball::identity::Transaction;
use snowball::message::Fault;
use snowball::message::Message;
use snowball::message::QueryMessage;
use snowball::message::QueryResponse;
use snowball::node::Node;
use snowball::state::TxState;
use snowball::status::Status;

#[test]
fn new_node_is_empty() {
    let node = Node::new(3);
    assert_eq!(node.id(), 3);
    assert_eq!(node.config(), Config::standard());
    assert_eq!(node.pending(), 0);
    assert!(!node.knows(&Transaction { nonce: 1, data: 3 }.hash()));
}

#[test]
fn verify_transaction_accepts_payloads_below_seven() {
    let node = Node::new(0);
    assert_eq!(node.verify_transaction(&Transaction { nonce: 1, data: 6 }), Status::Valid);
    assert_eq!(node.verify_transaction(&Transaction { nonce: 1, data: 7 }), Status::Invalid);
    assert_eq!(node.verify_transaction(&Transaction { nonce: 1, data: -1 }), Status::Valid);
    assert_eq!(node.verify_transaction(&Transaction { nonce: 1, data: 9 }), Status::Invalid);
}

#[test]
fn injected_transaction_is_filed_and_queried() {
    let mut node = Node::new(2);
    let tx = Transaction { nonce: 1, data: 3 };
    node.handle_transaction(&tx);
    let st = node.state(&tx.hash()).unwrap().clone();
    assert_eq!(st.status, Status::Valid);
    assert_eq!(st.epoch, 0);
    assert!(!st.is_final);
    assert_eq!(
        node.take_outbound(),
        vec![(2u64, Message::Query(QueryMessage { tx, status: Status::Valid }))]
    );
    assert_eq!(node.pending(), 0);
}

#[test]
fn injecting_a_known_transaction_changes_nothing() {
    let mut node = Node::new(2);
    let tx = Transaction { nonce: 1, data: 3 };
    node.handle_transaction(&tx);
    let resp = QueryResponse { hash: tx.hash(), status: Status::Valid };
    assert_eq!(node.handle_query_response(&resp), None);
    assert_eq!(node.state(&tx.hash()).unwrap().responses.len(), 1);
    node.take_outbound();
    node.handle_transaction(&tx);
    assert_eq!(node.state(&tx.hash()).unwrap().responses.len(), 1);
    assert_eq!(node.pending(), 0);
    let same_identity = Transaction { nonce: 1, data: 9 };
    assert_eq!(node.handle_message(0, &Message::Transaction(same_identity)), Ok(None));
    assert_eq!(node.state(&tx.hash()).unwrap().status, Status::Valid);
    assert_eq!(node.state(&tx.hash()).unwrap().tx, tx);
    assert_eq!(node.pending(), 0);
}

#[test]
fn two_transactions_are_kept_apart() {
    let mut node = Node::new(2);
    let a = Transaction { nonce: 1, data: 3 };
    let b = Transaction { nonce: 2, data: 9 };
    node.handle_transaction(&a);
    node.handle_transaction(&b);
    let resp = QueryResponse { hash: b.hash(), status: Status::Invalid };
    node.handle_query_response(&resp);
    assert_eq!(node.state(&a.hash()).unwrap().responses.len(), 0);
    assert_eq!(node.state(&b.hash()).unwrap().responses.len(), 1);
    assert_eq!(node.state(&a.hash()).unwrap().status, Status::Valid);
    assert_eq!(node.state(&b.hash()).unwrap().status, Status::Invalid);
    assert_eq!(node.state(&a.hash()).unwrap().tx, a);
    assert_eq!(node.state(&b.hash()).unwrap().tx, b);
}

#[test]
fn query_for_unseen_transaction_is_adopted_propagated_and_answered() {
    let mut node = Node::new(5);
    let tx = Transaction { nonce: 8, data: 9 };
    node.handle_query(1, &QueryMessage { tx, status: Status::Valid });
    assert_eq!(node.state(&tx.hash()).unwrap().status, Status::Valid);
    assert_eq!(
        node.take_outbound(),
        vec![
            (5u64, Message::Query(QueryMessage { tx, status: Status::Valid })),
            (
                5u64,
                Message::QueryResponse((1, QueryResponse { hash: tx.hash(), status: Status::Valid }))
            ),
        ]
    );
}

#[test]
fn query_for_known_transaction_is_answered_with_own_belief() {
    let mut node = Node::new(5);
    let tx = Transaction { nonce: 8, data: 9 };
    node.handle_transaction(&tx);
    node.take_outbound();
    node.handle_query(7, &QueryMessage { tx, status: Status::Valid });
    assert_eq!(node.state(&tx.hash()).unwrap().status, Status::Invalid);
    assert_eq!(
        node.take_outbound(),
        vec![(
            5u64,
            Message::QueryResponse((7, QueryResponse { hash: tx.hash(), status: Status::Invalid }))
        )]
    );
}

#[test]
fn each_response_before_finality_asks_again() {
    let mut node = Node::new(0);
    let tx = Transaction { nonce: 1, data: 3 };
    node.handle_transaction(&tx);
    node.take_outbound();
    let resp = QueryResponse { hash: tx.hash(), status: Status::Valid };
    assert_eq!(node.handle_query_response(&resp), None);
    assert_eq!(
        node.take_outbound(),
        vec![(0u64, Message::Query(QueryMessage { tx, status: Status::Valid }))]
    );
}

#[test]
fn requery_carries_the_flipped_belief() {
    let mut node = Node::new(0);
    let tx = Transaction { nonce: 1, data: 3 };
    node.handle_transaction(&tx);
    let resp = QueryResponse { hash: tx.hash(), status: Status::Invalid };
    node.handle_query_response(&resp);
    node.handle_query_response(&resp);
    node.take_outbound();
    assert_eq!(node.handle_query_response(&resp), None);
    assert_eq!(node.state(&tx.hash()).unwrap().status, Status::Invalid);
    assert_eq!(
        node.take_outbound(),
        vec![(0u64, Message::Query(QueryMessage { tx, status: Status::Invalid }))]
    );
}

#[test]
fn unknown_response_is_rejected_without_mutation() {
    let mut node = Node::new(0);
    let known = Transaction { nonce: 1, data: 3 };
    node.handle_transaction(&known);
    node.take_outbound();
    let unknown = Transaction { nonce: 2, data: 3 };
    let msg = Message::QueryResponse((
        0,
        QueryResponse { hash: unknown.hash(), status: Status::Valid },
    ));
    assert_eq!(node.refuses(&msg), Some(Fault::UnknownTransaction));
    assert_eq!(node.handle_message(4, &msg), Err(Fault::UnknownTransaction));
    assert!(!node.knows(&unknown.hash()));
    assert!(node.knows(&known.hash()));
    assert_eq!(node.state(&known.hash()).unwrap().responses.len(), 0);
    assert_eq!(node.pending(), 0);
}

#[test]
fn post_finality_silence() {
    let mut node = Node::new(0);
    let tx = Transaction { nonce: 1, data: 3 };
    let h = tx.hash();
    assert_eq!(node.handle_message(0, &Message::Transaction(tx)), Ok(None));
    let valid = Message::QueryResponse((0, QueryResponse { hash: h, status: Status::Valid }));
    let mut i: u32 = 0;
    while i < 15 {
        assert_eq!(node.handle_message(1, &valid), Ok(None));
        i += 1;
    }
    assert_eq!(node.handle_message(1, &valid), Ok(Some((h, Status::Valid))));
    assert_eq!(node.take_outbound().len(), 16);
    let before = node.state(&h).unwrap().clone();
    assert!(before.is_final);
    let invalid = Message::QueryResponse((0, QueryResponse { hash: h, status: Status::Invalid }));
    assert_eq!(node.refuses(&invalid), None);
    assert_eq!(node.handle_message(1, &invalid), Ok(None));
    assert_eq!(node.pending(), 0);
    let after = node.state(&h).unwrap();
    assert_eq!(after.status, Status::Valid);
    assert_eq!(after.epoch, before.epoch);
    assert_eq!(after.responses, before.responses);
    assert_eq!(after.cnt_valid, before.cnt_valid);
    assert_eq!(after.cnt_invalid, before.cnt_invalid);
    assert_eq!(after.cnt, before.cnt);
    assert_eq!(after.last_status, before.last_status);
    assert!(after.is_final);
}

#[test]
fn response_at_the_counter_limit_is_refused() {
    let mut node = Node::new(0);
    let tx = Transaction { nonce: 1, data: 3 };
    let mut st = TxState::new(tx, Status::Valid);
    st.cnt_invalid = u32::MAX;
    assert!(node.track(st));
    let msg = Message::QueryResponse((0, QueryResponse { hash: tx.hash(), status: Status::Valid }));
    assert_eq!(node.refuses(&msg), Some(Fault::CounterLimit));
    assert_eq!(node.handle_message(1, &msg), Err(Fault::CounterLimit));
    assert_eq!(node.state(&tx.hash()).unwrap().responses.len(), 0);
    assert_eq!(node.state(&tx.hash()).unwrap().cnt_invalid, u32::MAX);
    assert_eq!(node.pending(), 0);
}

#[test]
fn track_files_a_state_once() {
    let mut node = Node::new(0);
    let tx = Transaction { nonce: 1, data: 3 };
    assert!(node.track(TxState::new(tx, Status::Invalid)));
    assert!(node.knows(&tx.hash()));
    assert_eq!(node.state(&tx.hash()).unwrap().status, Status::Invalid);
    assert!(!node.track(TxState::new(tx, Status::Valid)));
    assert_eq!(node.state(&tx.hash()).unwrap().status, Status::Invalid);
    assert_eq!(node.pending(), 0);
}

#[test]
fn a_wide_open_quorum_confirms_every_response() {
    let cfg = Config::new(1, 1, 1, u32::MAX, 4).unwrap();
    let mut node = Node::with_config(0, cfg);
    let tx = Transaction { nonce: 1, data: 3 };
    node.handle_transaction(&tx);
    let msg = Message::QueryResponse((0, QueryResponse { hash: tx.hash(), status: Status::Valid }));
    assert_eq!(node.refuses(&msg), None);
    assert_eq!(node.handle_message(1, &msg), Ok(None));
    assert_eq!(node.state(&tx.hash()).unwrap().cnt_valid, 1);
}

#[test]
fn send_functions_append_in_order() {
    let mut node = Node::new(9);
    let tx = Transaction { nonce: 4, data: 1 };
    node.send_response(3, tx.hash(), Status::Invalid);
    node.send_query(tx, Status::Valid);
    assert_eq!(node.pending(), 2);
    assert_eq!(
        node.take_outbound(),
        vec![
            (
                9u64,
                Message::QueryResponse((3, QueryResponse { hash: tx.hash(), status: Status::Invalid }))
            ),
            (9u64, Message::Query(QueryMessage { tx, status: Status::Valid })),
        ]
    );
}
