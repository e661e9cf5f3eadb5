//! The messages that nodes and the router exchange.

use vstd::prelude::*;

use crate::identity::Transaction;
use crate::status::Status;

verus! {

/// The answer of a peer: its current belief about the transaction with
/// identifier `hash`.
#[derive(Clone, Copy, Debug, PartialEq, Eq)]
pub struct QueryResponse {
    pub hash: crate::identity::Hash,
    pub status: Status,
}

/// A question to sampled peers, carrying the asking node's belief.
#[derive(Clone, Copy, Debug, PartialEq, Eq)]
pub struct QueryMessage {
    pub tx: Transaction,
    pub status: Status,
}

/// A protocol message. A `QueryResponse` names the node it is addressed to.
/// A `Transaction` is handed to a node from outside and is never routed.
#[derive(Clone, Copy, Debug, PartialEq, Eq)]
pub enum Message {
    Query(QueryMessage),
    QueryResponse((u64, QueryResponse)),
    Transaction(Transaction),
}

/// The mathematical value of a message.
pub ghost enum Note {
    Query { tx: Transaction, status: Status },
    Response { to: u64, id: Seq<u8>, status: Status },
    Inject { tx: Transaction },
}

impl View for Message {
    type V = Note;

    open spec fn view(&self) -> Note {
        match *self {
            Message::Query(q) => Note::Query { tx: q.tx, status: q.status },
            Message::QueryResponse((to, r)) => Note::Response {
                to,
                id: r.hash@,
                status: r.status,
            },
            Message::Transaction(tx) => Note::Inject { tx },
        }
    }
}

/// The values of a sequence of messages, each with the node it came from.
pub open spec fn notes(s: Seq<(u64, Message)>) -> Seq<(u64, Note)> {
    Seq::new(s.len(), |i: int| (s[i].0, s[i].1@))
}

/// The values of a sequence with one more message are the earlier values
/// and the value of that message.
pub proof fn lemma_notes_push(s: Seq<(u64, Message)>, e: (u64, Message))
    ensures
        notes(s.push(e)) == notes(s).push((e.0, e.1@)),
{
    assert(notes(s.push(e)) =~= notes(s).push((e.0, e.1@)));
}

/// The values of two sequences joined are their values joined.
pub proof fn lemma_notes_concat(a: Seq<(u64, Message)>, b: Seq<(u64, Message)>)
    ensures
        notes(a + b) == notes(a) + notes(b),
{
    assert(notes(a + b) =~= notes(a) + notes(b));
}

/// Why a message was refused.
#[derive(Clone, Copy, Debug, PartialEq, Eq, Structural)]
pub enum Fault {
    /// A message names a node that the network does not have.
    UnknownNode,
    /// A response refers to a transaction that the node has never seen.
    UnknownTransaction,
    /// Fewer peers are eligible than a query samples.
    TooFewPeers,
    /// A transaction stands in the mailbox, where only queries and
    /// responses may stand.
    StrayTransaction,
    /// A counter of the transaction's state has reached the machine limit.
    CounterLimit,
}

} // verus!
