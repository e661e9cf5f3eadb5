//! A node: its mempool of consensus states and the protocol handlers.

use vstd::prelude::*;

use crate::config::Config;
use crate::identity::Transaction;
use crate::message::lemma_notes_push;
use crate::message::notes;
use crate::message::Fault;
use crate::message::Message;
use crate::message::Note;
use crate::message::QueryMessage;
use crate::message::QueryResponse;
use crate::state::StateModel;
use crate::state::TxState;
use crate::status::Status;

verus! {

/// The mathematical value of a node: its mempool as a map from identifier
/// to consensus state, and the messages it has emitted and not yet handed
/// over, oldest first.
pub ghost struct NodeModel {
    pub id: u64,
    pub config: Config,
    pub pool: Map<Seq<u8>, StateModel>,
    pub sent: Seq<(u64, Note)>,
}

/// The value of a decision: the identifier and the final belief.
pub open spec fn verdict_view(d: Option<(crate::identity::Hash, Status)>) -> Option<(Seq<u8>, Status)> {
    match d {
        Some((h, s)) => Some((h@, s)),
        None => None,
    }
}

impl NodeModel {
    /// A node that has seen nothing.
    pub open spec fn empty(id: u64, config: Config) -> NodeModel {
        NodeModel { id, config, pool: Map::empty(), sent: Seq::empty() }
    }

    /// The node after it has emitted `note`.
    pub open spec fn emit(self, note: Note) -> NodeModel {
        NodeModel { sent: self.sent.push((self.id, note)), ..self }
    }

    /// The node after its emitted messages have been handed over.
    pub open spec fn drained(self) -> NodeModel {
        NodeModel { sent: Seq::empty(), ..self }
    }

    /// Every state is filed under the identifier of its transaction.
    pub open spec fn keyed_by_identity(self) -> bool {
        forall|k: Seq<u8>| #[trigger]
            self.pool.dom().contains(k) ==> self.pool[k].tx.identifier() == k
    }

    /// The node after a transaction was handed to it from outside: one
    /// seen for the first time is filed with the belief of the node's own
    /// check and asked about; a known one changes nothing.
    pub open spec fn on_transaction(self, tx: Transaction) -> NodeModel {
        let status = tx.locally_valid();
        if self.pool.dom().contains(tx.identifier()) {
            self
        } else {
            NodeModel {
                pool: self.pool.insert(tx.identifier(), StateModel::fresh(tx, status)),
                ..self
            }.emit(Note::Query { tx, status })
        }
    }

    /// The node after a query from `origin`: an unseen transaction is filed
    /// with the belief of the query and asked about in turn; the answer
    /// carries the belief that the node then holds.
    pub open spec fn on_query(self, origin: u64, tx: Transaction, status: Status) -> NodeModel {
        let k = tx.identifier();
        if self.pool.dom().contains(k) {
            self.emit(Note::Response { to: origin, id: k, status: self.pool[k].status })
        } else {
            NodeModel { pool: self.pool.insert(k, StateModel::fresh(tx, status)), ..self }.emit(
                Note::Query { tx, status },
            ).emit(Note::Response { to: origin, id: k, status })
        }
    }

    /// The node after a response about the known transaction `id`: the
    /// state takes its step, and unless it was or has become final the node
    /// asks again with the belief it now holds.
    pub open spec fn on_response(self, id: Seq<u8>, status: Status) -> NodeModel {
        let before = self.pool[id];
        let after = before.respond(status, self.config);
        let stepped = NodeModel { pool: self.pool.insert(id, after), ..self };
        if after.is_final {
            stepped
        } else {
            stepped.emit(Note::Query { tx: after.tx, status: after.status })
        }
    }

    /// The decision that a response with belief `status` about the known
    /// transaction `id` brings, if it is the deciding one.
    pub open spec fn decision_on(self, id: Seq<u8>, status: Status) -> Option<(Seq<u8>, Status)> {
        if self.pool[id].decides(status, self.config) {
            Some((id, self.pool[id].respond(status, self.config).status))
        } else {
            None
        }
    }

    /// The decision that handling `note` brings, if any: only a response
    /// can bring one.
    pub open spec fn decision(self, note: Note) -> Option<(Seq<u8>, Status)> {
        match note {
            Note::Response { to, id, status } => self.decision_on(id, status),
            _ => None,
        }
    }

    /// Why the node refuses `note`, if it does.
    pub open spec fn refusal(self, note: Note) -> Option<Fault> {
        match note {
            Note::Response { to, id, status } => if !self.pool.dom().contains(id) {
                Some(Fault::UnknownTransaction)
            } else if !self.pool[id].has_room() {
                Some(Fault::CounterLimit)
            } else {
                None
            },
            _ => None,
        }
    }

    /// The node after it has handled `note`, which it does not refuse.
    pub open spec fn receive(self, origin: u64, note: Note) -> NodeModel {
        match note {
            Note::Query { tx, status } => self.on_query(origin, tx, status),
            Note::Response { to, id, status } => self.on_response(id, status),
            Note::Inject { tx } => self.on_transaction(tx),
        }
    }
}

/// No message that a node handles takes a known transaction away, lowers
/// its epoch or changes its state once it is final.
pub proof fn lemma_receive_keeps_verdicts(node: NodeModel, origin: u64, note: Note, k: Seq<u8>)
    requires
        node.pool.dom().contains(k),
    ensures
        node.receive(origin, note).pool.dom().contains(k),
        node.receive(origin, note).pool[k].epoch >= node.pool[k].epoch,
        node.receive(origin, note).pool[k].tx == node.pool[k].tx,
        node.pool[k].is_final ==> node.receive(origin, note).pool[k] == node.pool[k],
{
}

/// A response about a transaction whose verdict is final changes nothing
/// in the node, makes it emit nothing and brings no decision.
pub proof fn lemma_silence_after_finality(node: NodeModel, to: u64, id: Seq<u8>, status: Status)
    requires
        node.pool.dom().contains(id),
        node.pool[id].is_final,
    ensures
        node.on_response(id, status) == node,
        node.decision(Note::Response { to, id, status }).is_none(),
        node.refusal(Note::Response { to, id, status }).is_none(),
{
    assert(node.pool.insert(id, node.pool[id]) =~= node.pool);
}

/// A query never changes what the node believes about a transaction it
/// already knows, and is always answered to its origin, last of what the
/// node emits.
pub proof fn lemma_query_is_answered(node: NodeModel, origin: u64, tx: Transaction, status: Status)
    ensures
        node.pool.dom().contains(tx.identifier()) ==> node.on_query(origin, tx, status).pool
            == node.pool,
        node.on_query(origin, tx, status).sent.last() == (
            node.id,
            Note::Response {
                to: origin,
                id: tx.identifier(),
                status: node.on_query(origin, tx, status).pool[tx.identifier()].status,
            },
        ),
{
}

/// One slot of the mempool.
struct Entry {
    key: crate::identity::Hash,
    state: TxState,
}

/// The map that a list of slots with distinct keys stands for.
spec fn pool_of(es: Seq<Entry>) -> Map<Seq<u8>, StateModel> {
    Map::new(
        |k: Seq<u8>| exists|i: int| 0 <= i < es.len() && (#[trigger] es[i]).key@ == k,
        |k: Seq<u8>| es[choose|i: int| 0 <= i < es.len() && (#[trigger] es[i]).key@ == k].state@,
    )
}

/// No identifier has two slots, and each slot is filed under the identifier
/// of its transaction.
spec fn slots_wf(es: Seq<Entry>) -> bool {
    &&& forall|i: int, j: int|
        0 <= i < j < es.len() ==> (#[trigger] es[i]).key@ != (#[trigger] es[j]).key@
    &&& forall|i: int|
        0 <= i < es.len() ==> (#[trigger] es[i]).key@ == es[i].state.tx.identifier()
}

proof fn lemma_pool_at(es: Seq<Entry>, i: int)
    requires
        slots_wf(es),
        0 <= i < es.len(),
    ensures
        pool_of(es).dom().contains(es[i].key@),
        pool_of(es)[es[i].key@] == es[i].state@,
{
    let k = es[i].key@;
    let j = choose|j: int| 0 <= j < es.len() && (#[trigger] es[j]).key@ == k;
    assert(j == i);
}

proof fn lemma_pool_push(es: Seq<Entry>, e: Entry)
    requires
        slots_wf(es),
        e.key@ == e.state.tx.identifier(),
        !pool_of(es).dom().contains(e.key@),
    ensures
        slots_wf(es.push(e)),
        pool_of(es.push(e)) == pool_of(es).insert(e.key@, e.state@),
{
    let ns = es.push(e);
    assert(slots_wf(ns));
    assert forall|k: Seq<u8>| #[trigger] pool_of(ns).dom().contains(k) implies pool_of(
        es,
    ).insert(e.key@, e.state@).dom().contains(k) && pool_of(ns)[k] == pool_of(es).insert(
        e.key@,
        e.state@,
    )[k] by {
        let i = choose|i: int| 0 <= i < ns.len() && (#[trigger] ns[i]).key@ == k;
        lemma_pool_at(ns, i);
        if i < es.len() {
            assert(es[i] == ns[i]);
            lemma_pool_at(es, i);
        }
    }
    assert forall|k: Seq<u8>| #[trigger]
        pool_of(es).insert(e.key@, e.state@).dom().contains(k) implies pool_of(
        ns,
    ).dom().contains(k) by {
        if k == e.key@ {
            assert(ns[es.len() as int].key@ == k);
        } else {
            let i = choose|i: int| 0 <= i < es.len() && (#[trigger] es[i]).key@ == k;
            assert(ns[i].key@ == k);
        }
    }
    assert(pool_of(ns) =~= pool_of(es).insert(e.key@, e.state@));
}

proof fn lemma_pool_update(es: Seq<Entry>, at: int, e: Entry)
    requires
        slots_wf(es),
        0 <= at < es.len(),
        e.key@ == es[at].key@,
        e.key@ == e.state.tx.identifier(),
    ensures
        slots_wf(es.update(at, e)),
        pool_of(es.update(at, e)) == pool_of(es).insert(e.key@, e.state@),
{
    let ns = es.update(at, e);
    assert(slots_wf(ns));
    assert forall|k: Seq<u8>| #[trigger] pool_of(ns).dom().contains(k) implies pool_of(
        es,
    ).insert(e.key@, e.state@).dom().contains(k) && pool_of(ns)[k] == pool_of(es).insert(
        e.key@,
        e.state@,
    )[k] by {
        let i = choose|i: int| 0 <= i < ns.len() && (#[trigger] ns[i]).key@ == k;
        lemma_pool_at(ns, i);
        if i != at {
            assert(es[i] == ns[i]);
            lemma_pool_at(es, i);
        }
    }
    assert forall|k: Seq<u8>| #[trigger]
        pool_of(es).insert(e.key@, e.state@).dom().contains(k) implies pool_of(
        ns,
    ).dom().contains(k) by {
        if k == e.key@ {
            assert(ns[at].key@ == k);
        } else {
            let i = choose|i: int| 0 <= i < es.len() && (#[trigger] es[i]).key@ == k;
            assert(ns[i].key@ == k);
        }
    }
    assert(pool_of(ns) =~= pool_of(es).insert(e.key@, e.state@));
}

/// A participant of the network.
pub struct Node {
    mempool: Vec<Entry>,
    id: u64,
    config: Config,
    outbound: Vec<(u64, Message)>,
}

impl View for Node {
    type V = NodeModel;

    closed spec fn view(&self) -> NodeModel {
        NodeModel {
            id: self.id,
            config: self.config,
            pool: pool_of(self.mempool@),
            sent: notes(self.outbound@),
        }
    }
}

impl Node {
    /// The node's invariant: a valid configuration, and a mempool in which
    /// no identifier occurs twice and every state is filed under the
    /// identifier of its transaction.
    pub closed spec fn wf(&self) -> bool {
        self.config.wf() && slots_wf(self.mempool@)
    }

    /// In a valid node every state is filed under its transaction's
    /// identifier.
    pub proof fn lemma_keyed_by_identity(&self)
        requires
            self.wf(),
        ensures
            self@.keyed_by_identity(),
            self@.config.wf(),
    {
        let es = self.mempool@;
        assert forall|k: Seq<u8>| #[trigger] self@.pool.dom().contains(k) implies self@.pool[k].tx.identifier()
            == k by {
            let i = choose|i: int| 0 <= i < es.len() && (#[trigger] es[i]).key@ == k;
            lemma_pool_at(es, i);
        }
    }

    /// A node with the standard configuration and an empty mempool.
    pub fn new(id: u64) -> (r: Node)
        ensures
            r.wf(),
            r@ == NodeModel::empty(
                id,
                Config { sample_size: 4, alpha_num: 3, alpha_den: 4, beta: 3, max_epochs: 4 },
            ),
    {
        Node::with_config(id, Config::standard())
    }

    /// A node with the given configuration and an empty mempool.
    pub fn with_config(id: u64, config: Config) -> (r: Node)
        requires
            config.wf(),
        ensures
            r.wf(),
            r@ == NodeModel::empty(id, config),
    {
        let r = Node { mempool: Vec::new(), id, config, outbound: Vec::new() };
        assert(r@.pool =~= Map::empty());
        assert(r@.sent =~= Seq::empty());
        r
    }

    /// The node's identifier.
    pub fn id(&self) -> (r: u64)
        ensures
            r == self@.id,
    {
        self.id
    }

    /// The node's configuration.
    pub fn config(&self) -> (r: Config)
        ensures
            r == self@.config,
    {
        self.config
    }

    /// The slot of `h`, if the node has seen such a transaction.
    fn find(&self, h: &crate::identity::Hash) -> (r: Option<usize>)
        requires
            self.wf(),
        ensures
            r.is_some() <==> self@.pool.dom().contains(h@),
            r matches Some(i) ==> i < self.mempool@.len() && self.mempool@[i as int].key@ == h@
                && self@.pool[h@] == self.mempool@[i as int].state@,
    {
        let mut i: usize = 0;
        while i < self.mempool.len()
            invariant
                0 <= i <= self.mempool@.len(),
                self.wf(),
                forall|j: int| 0 <= j < i ==> (#[trigger] self.mempool@[j]).key@ != h@,
            decreases self.mempool@.len() - i,
        {
            if self.mempool[i].key.same(h) {
                proof {
                    lemma_pool_at(self.mempool@, i as int);
                }
                return Some(i);
            }
            i += 1;
        }
        None
    }

    /// Whether the node has a state for the transaction `h`.
    pub fn knows(&self, h: &crate::identity::Hash) -> (b: bool)
        requires
            self.wf(),
        ensures
            b == self@.pool.dom().contains(h@),
    {
        self.find(h).is_some()
    }

    /// The node's consensus state for the transaction `h`; `None` for a
    /// transaction that the node has not seen.
    pub fn state(&self, h: &crate::identity::Hash) -> (r: Option<&TxState>)
        requires
            self.wf(),
        ensures
            r.is_some() <==> self@.pool.dom().contains(h@),
            r matches Some(st) ==> st@ == self@.pool[h@],
    {
        match self.find(h) {
            Some(i) => Some(&self.mempool[i].state),
            None => None,
        }
    }

    /// The number of messages emitted and not yet handed over.
    pub fn pending(&self) -> (n: usize)
        ensures
            n == self@.sent.len(),
    {
        self.outbound.len()
    }

    /// Hands over the messages that the node has emitted, oldest first.
    pub fn take_outbound(&mut self) -> (out: Vec<(u64, Message)>)
        ensures
            notes(out@) == old(self)@.sent,
            final(self)@ == old(self)@.drained(),
            old(self).wf() ==> final(self).wf(),
    {
        let mut out: Vec<(u64, Message)> = Vec::new();
        out.append(&mut self.outbound);
        assert(out@ =~= old(self).outbound@);
        assert(notes(self.outbound@) =~= Seq::empty());
        out
    }

    /// The belief that the node's own check gives the transaction.
    pub fn verify_transaction(&self, tx: &Transaction) -> (s: Status)
        ensures
            s == tx.locally_valid(),
    {
        match tx.data < 7 {
            true => Status::Valid,
            false => Status::Invalid,
        }
    }

    /// Emits a query about `tx` with belief `status`.
    pub fn send_query(&mut self, tx: Transaction, status: Status)
        ensures
            final(self)@ == old(self)@.emit(Note::Query { tx, status }),
            old(self).wf() ==> final(self).wf(),
    {
        let msg = Message::Query(QueryMessage { tx: tx, status: status });
        proof {
            lemma_notes_push(self.outbound@, (self.id, msg));
        }
        self.outbound.push((self.id, msg));
    }

    /// Emits a response to node `to`: belief `status` about the transaction
    /// `hash`.
    pub fn send_response(&mut self, to: u64, hash: crate::identity::Hash, status: Status)
        ensures
            final(self)@ == old(self)@.emit(Note::Response { to, id: hash@, status }),
            old(self).wf() ==> final(self).wf(),
    {
        let msg = Message::QueryResponse((to, QueryResponse { hash, status }));
        proof {
            lemma_notes_push(self.outbound@, (self.id, msg));
        }
        self.outbound.push((self.id, msg));
    }

    /// Files `state` under the identifier of its transaction, unless the
    /// node already has a state for that transaction. Returns whether the
    /// state was filed.
    pub fn track(&mut self, state: TxState) -> (filed: bool)
        requires
            old(self).wf(),
        ensures
            final(self).wf(),
            filed == !old(self)@.pool.dom().contains(state.tx.identifier()),
            final(self)@ == if filed {
                NodeModel {
                    pool: old(self)@.pool.insert(state.tx.identifier(), state@),
                    ..old(self)@
                }
            } else {
                old(self)@
            },
    {
        let key = state.tx.hash();
        if self.knows(&key) {
            return false;
        }
        let e = Entry { key, state };
        proof {
            lemma_pool_push(self.mempool@, e);
        }
        self.mempool.push(e);
        true
    }

    /// Handles a transaction handed in from outside.
    pub fn handle_transaction(&mut self, tx: &Transaction)
        requires
            old(self).wf(),
        ensures
            final(self).wf(),
            final(self)@ == old(self)@.on_transaction(*tx),
    {
        let status = self.verify_transaction(tx);
        if self.track(TxState::new(*tx, status)) {
            self.send_query(*tx, status);
        }
    }

    /// Handles a query from `origin`.
    pub fn handle_query(&mut self, origin: u64, msg: &QueryMessage)
        requires
            old(self).wf(),
        ensures
            final(self).wf(),
            final(self)@ == old(self)@.on_query(origin, msg.tx, msg.status),
    {
        let key = msg.tx.hash();
        match self.find(&key) {
            None => {
                self.track(TxState::new(msg.tx, msg.status));
                self.send_query(msg.tx, msg.status);
                self.send_response(origin, key, msg.status);
            },
            Some(i) => {
                let status = self.mempool[i].state.status;
                self.send_response(origin, key, status);
            },
        }
    }

    /// Handles a response about a transaction that the node knows and whose
    /// counters have room. Returns the decision when this response makes
    /// the verdict final.
    pub fn handle_query_response(&mut self, msg: &QueryResponse) -> (r: Option<
        (crate::identity::Hash, Status),
    >)
        requires
            old(self).wf(),
            old(self)@.pool.dom().contains(msg.hash@),
            old(self)@.pool[msg.hash@].has_room(),
        ensures
            final(self).wf(),
            final(self)@ == old(self)@.on_response(msg.hash@, msg.status),
            verdict_view(r) == old(self)@.decision_on(msg.hash@, msg.status),
    {
        let cfg = self.config;
        let at = self.find(&msg.hash).unwrap();
        let was_final = self.mempool[at].state.is_final;
        let decided = self.mempool[at].state.on_response(msg.status, &cfg);
        proof {
            lemma_pool_update(old(self).mempool@, at as int, self.mempool@[at as int]);
            assert(self.mempool@ =~= old(self).mempool@.update(at as int, self.mempool@[at as int]));
        }
        let key = self.mempool[at].key;
        let tx = self.mempool[at].state.tx;
        let belief = self.mempool[at].state.status;
        if decided {
            Some((key, belief))
        } else {
            if !was_final {
                self.send_query(tx, belief);
            }
            None
        }
    }

    /// Why the node would refuse `msg`, if it would.
    pub fn refuses(&self, msg: &Message) -> (r: Option<Fault>)
        requires
            self.wf(),
        ensures
            r == self@.refusal(msg@),
    {
        match msg {
            Message::QueryResponse((_to, resp)) => {
                match self.find(&resp.hash) {
                    None => Some(Fault::UnknownTransaction),
                    Some(at) => {
                        if !self.mempool[at].state.has_room() {
                            Some(Fault::CounterLimit)
                        } else {
                            None
                        }
                    },
                }
            },
            _ => None,
        }
    }

    /// Handles any message. A response about an unseen transaction, or one
    /// whose state has a counter at the machine limit, is refused and
    /// leaves the node as it was.
    pub fn handle_message(&mut self, origin: u64, msg: &Message) -> (r: Result<
        Option<(crate::identity::Hash, Status)>,
        Fault,
    >)
        requires
            old(self).wf(),
        ensures
            final(self).wf(),
            match r {
                Ok(d) => old(self)@.refusal(msg@).is_none() && final(self)@ == old(self)@.receive(
                    origin,
                    msg@,
                ) && verdict_view(d) == old(self)@.decision(msg@),
                Err(f) => old(self)@.refusal(msg@) == Some(f) && final(self)@ == old(self)@,
            },
    {
        match self.refuses(msg) {
            Some(f) => Err(f),
            None => match msg {
                Message::Query(q) => {
                    self.handle_query(origin, q);
                    Ok(None)
                },
                Message::QueryResponse((_to, resp)) => Ok(self.handle_query_response(resp)),
                Message::Transaction(tx) => {
                    self.handle_transaction(tx);
                    Ok(None)
                },
            },
        }
    }
}

} // verus!
