//! The router: an ordered mailbox and the nodes it delivers to.

use vstd::prelude::*;

use crate::config::Config;
use crate::identity::Transaction;
use crate::message::lemma_notes_concat;
use crate::message::lemma_notes_push;
use crate::message::notes;
use crate::message::Fault;
use crate::message::Message;
use crate::message::Note;
use crate::message::QueryMessage;
use crate::node::lemma_receive_keeps_verdicts;
use crate::node::verdict_view;
use crate::node::Node;
use crate::node::NodeModel;
use crate::status::Status;

verus! {

/// A decision as the router reports it: the node, the identifier and the
/// final belief.
pub type Decision = (u64, crate::identity::Hash, Status);

/// The value of a decision.
pub type DecisionModel = (u64, Seq<u8>, Status);

/// The values of a list of decisions.
pub open spec fn decisions_view(v: Seq<Decision>) -> Seq<DecisionModel> {
    Seq::new(v.len(), |i: int| (v[i].0, v[i].1@, v[i].2))
}

/// The mathematical value of the network: its nodes by identifier, none
/// holding undelivered output, and the mailbox, oldest message first, each
/// with the node it came from.
pub ghost struct NetworkModel {
    pub config: Config,
    pub nodes: Seq<NodeModel>,
    pub mailbox: Seq<(u64, Note)>,
}

impl NetworkModel {
    /// The number of nodes other than `origin`.
    pub open spec fn eligible(self, origin: u64) -> nat {
        if origin < self.nodes.len() {
            (self.nodes.len() - 1) as nat
        } else {
            self.nodes.len()
        }
    }

    /// Whether `peers` is a sample that a query from `origin` may be sent
    /// to: as many nodes as the configuration asks for, all of the network,
    /// none of them `origin`, none twice.
    pub open spec fn valid_sample(self, peers: Seq<u64>, origin: u64) -> bool {
        &&& peers.len() == self.config.sample_size
        &&& peers.no_duplicates()
        &&& forall|i: int| 0 <= i < peers.len() ==> peers[i] < self.nodes.len() && peers[i] != origin
    }

    /// The network after node `to` has handled `note` from `origin` and
    /// what it emitted has been appended to the mailbox.
    pub open spec fn delivered(self, to: int, origin: u64, note: Note) -> NetworkModel {
        let after = self.nodes[to].receive(origin, note);
        NetworkModel {
            nodes: self.nodes.update(to, after.drained()),
            mailbox: self.mailbox + after.sent,
            ..self
        }
    }

    /// The network after each of `peers`, in turn, has handled `note`.
    pub open spec fn fanned_out(self, origin: u64, note: Note, peers: Seq<u64>) -> NetworkModel
        decreases peers.len(),
    {
        if peers.len() == 0 {
            self
        } else {
            self.fanned_out(origin, note, peers.drop_last()).delivered(
                peers.last() as int,
                origin,
                note,
            )
        }
    }

    /// Why node `to` cannot be handed `note`, if it cannot.
    pub open spec fn delivery_refusal(self, to: u64, note: Note) -> Option<Fault> {
        if to >= self.nodes.len() {
            Some(Fault::UnknownNode)
        } else {
            self.nodes[to as int].refusal(note)
        }
    }

    /// The network without the oldest message of its mailbox.
    pub open spec fn popped(self) -> NetworkModel {
        NetworkModel { mailbox: self.mailbox.drop_first(), ..self }
    }

    /// Why the oldest message of the mailbox cannot be routed, if it
    /// cannot.
    pub open spec fn refusal(self) -> Option<Fault>
        recommends
            self.mailbox.len() > 0,
    {
        let origin = self.mailbox[0].0;
        match self.mailbox[0].1 {
            Note::Query { tx, status } => if self.eligible(origin) < self.config.sample_size {
                Some(Fault::TooFewPeers)
            } else {
                None
            },
            Note::Response { to, id, status } => self.delivery_refusal(to, self.mailbox[0].1),
            Note::Inject { tx } => Some(Fault::StrayTransaction),
        }
    }

    /// The decision that routing the oldest message brings, if any.
    pub open spec fn pending_decision(self) -> Option<DecisionModel>
        recommends
            self.mailbox.len() > 0,
    {
        match self.mailbox[0].1 {
            Note::Response { to, id, status } => match self.nodes[to as int].decision(
                self.mailbox[0].1,
            ) {
                Some((h, s)) => Some((to, h, s)),
                None => None,
            },
            _ => None,
        }
    }

    /// Whether routing the oldest message can lead from this network to
    /// `next`: a query goes to some valid sample of peers, a response to
    /// the node it is addressed to.
    pub open spec fn steps_to(self, next: NetworkModel) -> bool {
        &&& self.mailbox.len() > 0
        &&& self.refusal().is_none()
        &&& match self.mailbox[0].1 {
            Note::Query { tx, status } => exists|peers: Seq<u64>|
                self.valid_sample(peers, self.mailbox[0].0) && next == #[trigger] self.popped().fanned_out(
                    self.mailbox[0].0,
                    self.mailbox[0].1,
                    peers,
                ),
            Note::Response { to, id, status } => next == self.popped().delivered(
                to as int,
                self.mailbox[0].0,
                self.mailbox[0].1,
            ),
            Note::Inject { tx } => false,
        }
    }
}

impl NetworkModel {
    /// Whether `next` has the configuration and the nodes of this network,
    /// each node still knowing every transaction it knew, in an epoch that
    /// is not lower, and with every final state unchanged.
    pub open spec fn keeps_verdicts(self, next: NetworkModel) -> bool {
        &&& next.config == self.config
        &&& next.nodes.len() == self.nodes.len()
        &&& forall|i: int, k: Seq<u8>|
            0 <= i < self.nodes.len() && #[trigger] self.nodes[i].pool.dom().contains(k) ==> {
                &&& next.nodes[i].pool.dom().contains(k)
                &&& next.nodes[i].pool[k].epoch >= self.nodes[i].pool[k].epoch
                &&& self.nodes[i].pool[k].is_final ==> next.nodes[i].pool[k]
                    == self.nodes[i].pool[k]
            }
    }
}

/// Handing a message to a node keeps every verdict of the network.
pub proof fn lemma_delivery_keeps_verdicts(net: NetworkModel, to: int, origin: u64, note: Note)
    requires
        0 <= to < net.nodes.len(),
    ensures
        net.keeps_verdicts(net.delivered(to, origin, note)),
{
    let next = net.delivered(to, origin, note);
    assert forall|i: int, k: Seq<u8>|
        0 <= i < net.nodes.len() && #[trigger] net.nodes[i].pool.dom().contains(k) implies {
        &&& next.nodes[i].pool.dom().contains(k)
        &&& next.nodes[i].pool[k].epoch >= net.nodes[i].pool[k].epoch
        &&& net.nodes[i].pool[k].is_final ==> next.nodes[i].pool[k] == net.nodes[i].pool[k]
    } by {
        if i == to {
            lemma_receive_keeps_verdicts(net.nodes[to], origin, note, k);
        }
    }
}

/// Handing a query to a list of peers keeps every verdict of the network.
pub proof fn lemma_fan_out_keeps_verdicts(
    net: NetworkModel,
    origin: u64,
    note: Note,
    peers: Seq<u64>,
)
    requires
        forall|i: int| 0 <= i < peers.len() ==> peers[i] < net.nodes.len(),
    ensures
        net.keeps_verdicts(net.fanned_out(origin, note, peers)),
    decreases peers.len(),
{
    if peers.len() > 0 {
        let mid = net.fanned_out(origin, note, peers.drop_last());
        lemma_fan_out_keeps_verdicts(net, origin, note, peers.drop_last());
        lemma_delivery_keeps_verdicts(mid, peers.last() as int, origin, note);
    }
}

/// Routing a message keeps every verdict of the network: no node forgets a
/// transaction, no epoch decreases, and a final state never changes again.
pub proof fn lemma_step_keeps_verdicts(net: NetworkModel, next: NetworkModel)
    requires
        net.steps_to(next),
    ensures
        net.keeps_verdicts(next),
{
    let origin = net.mailbox[0].0;
    let note = net.mailbox[0].1;
    match note {
        Note::Query { tx, status } => {
            let peers = choose|peers: Seq<u64>|
                net.valid_sample(peers, origin) && next == #[trigger] net.popped().fanned_out(
                    origin,
                    note,
                    peers,
                );
            lemma_fan_out_keeps_verdicts(net.popped(), origin, note, peers);
        },
        Note::Response { to, id, status } => {
            lemma_delivery_keeps_verdicts(net.popped(), to as int, origin, note);
        },
        Note::Inject { tx } => {},
    }
}

/// A whole run keeps every verdict of the network it started from.
pub proof fn lemma_run_keeps_verdicts(trace: Seq<NetworkModel>)
    requires
        is_run(trace),
    ensures
        trace[0].keeps_verdicts(trace.last()),
    decreases trace.len(),
{
    if trace.len() > 1 {
        let earlier = trace.drop_last();
        assert(is_run(earlier)) by {
            assert forall|i: int| 0 <= i < earlier.len() - 1 implies (#[trigger] earlier[i]).steps_to(
                earlier[i + 1],
            ) by {
                assert(trace[i].steps_to(trace[i + 1]));
            }
        }
        lemma_run_keeps_verdicts(earlier);
        let mid = trace[trace.len() - 2];
        assert(mid.steps_to(trace[trace.len() - 2 + 1]));
        lemma_step_keeps_verdicts(mid, trace.last());
        assert(earlier.last() == mid);
        assert(earlier[0] == trace[0]);
    }
}

/// Whether `trace` is a run of the router: each network leads to the next
/// by routing its oldest message.
pub open spec fn is_run(trace: Seq<NetworkModel>) -> bool {
    &&& trace.len() > 0
    &&& forall|i: int| 0 <= i < trace.len() - 1 ==> (#[trigger] trace[i]).steps_to(trace[i + 1])
}

/// The decisions that a run brings, in the order in which they are made.
pub open spec fn decisions_of(trace: Seq<NetworkModel>) -> Seq<DecisionModel>
    decreases trace.len(),
{
    if trace.len() <= 1 {
        Seq::empty()
    } else {
        let earlier = decisions_of(trace.drop_last());
        match trace[trace.len() - 2].pending_decision() {
            Some(d) => earlier.push(d),
            None => earlier,
        }
    }
}

/// What one step of the router did.
#[derive(Clone, Copy, Debug, PartialEq, Eq)]
pub enum Step {
    /// The mailbox was empty.
    Idle,
    /// A message was routed and no verdict became final.
    Routed,
    /// A response was routed and made a verdict final.
    Decided(Decision),
}

/// `rand::sample` with the generator of `rand::thread_rng`: as many of
/// the items as asked for, or all of them where there are fewer; every
/// item of the result is one of `ids`, and none is taken twice, so that a
/// list without repetitions gives a result without repetitions.
#[verifier::external_body]
fn sample_ids(ids: Vec<u64>, amount: usize) -> (out: Vec<u64>)
    ensures
        out@.len() == if amount <= ids@.len() {
            amount as int
        } else {
            ids@.len() as int
        },
        forall|i: int| 0 <= i < out@.len() ==> ids@.contains(#[trigger] out@[i]),
        ids@.no_duplicates() ==> out@.no_duplicates(),
{
    #[allow(deprecated)]
    rand::sample(&mut rand::thread_rng(), ids, amount)
}

/// Draws `n` distinct node identifiers other than `excl` at random, or all
/// of them where there are fewer than `n`.
pub fn sample_nodes(nodes: &Vec<Node>, n: usize, excl: u64) -> (out: Vec<u64>)
    ensures
        out@.no_duplicates(),
        forall|i: int| 0 <= i < out@.len() ==> out@[i] < nodes@.len() && out@[i] != excl,
        out@.len() == if excl < nodes@.len() {
            if n <= nodes@.len() - 1 {
                n as int
            } else {
                nodes@.len() - 1
            }
        } else {
            if n <= nodes@.len() {
                n as int
            } else {
                nodes@.len() as int
            }
        },
{
    let mut ids: Vec<u64> = Vec::new();
    let mut i: usize = 0;
    while i < nodes.len()
        invariant
            0 <= i <= nodes@.len(),
            ids@.len() == if excl < i {
                i - 1
            } else {
                i as int
            },
            forall|j: int| 0 <= j < ids@.len() ==> (#[trigger] ids@[j]) < i && ids@[j] != excl,
            forall|a: int, b: int| 0 <= a < b < ids@.len() ==> ids@[a] < ids@[b],
        decreases nodes@.len() - i,
    {
        if i as u64 != excl {
            ids.push(i as u64);
        }
        i += 1;
    }
    let out = sample_ids(ids, n);
    assert forall|j: int| 0 <= j < out@.len() implies out@[j] < nodes@.len() && out@[j] != excl by {
        assert(ids@.contains(out@[j]));
    }
    out
}

/// The network: the nodes, and the mailbox through which they talk.
pub struct Network {
    nodes: Vec<Node>,
    mailbox: Vec<(u64, Message)>,
    config: Config,
}

impl View for Network {
    type V = NetworkModel;

    closed spec fn view(&self) -> NetworkModel {
        NetworkModel {
            config: self.config,
            nodes: Seq::new(self.nodes@.len(), |i: int| self.nodes@[i]@),
            mailbox: notes(self.mailbox@),
        }
    }
}

impl Network {
    /// The network's invariant: node `i` stands at place `i`, is valid,
    /// shares the network's configuration and holds no undelivered output.
    pub closed spec fn wf(&self) -> bool {
        &&& self.config.wf()
        &&& self.nodes@.len() <= u64::MAX
        &&& forall|i: int|
            0 <= i < self.nodes@.len() ==> {
                &&& (#[trigger] self.nodes@[i]).wf()
                &&& self.nodes@[i]@.id == i
                &&& self.nodes@[i]@.config == self.config
                &&& self.nodes@[i]@.sent.len() == 0
            }
    }

    /// In a valid network node `i` has identifier `i`, the network's
    /// configuration and no undelivered output.
    pub proof fn lemma_wf_model(&self)
        requires
            self.wf(),
        ensures
            self@.config.wf(),
            forall|i: int|
                0 <= i < self@.nodes.len() ==> (#[trigger] self@.nodes[i]).id == i
                    && self@.nodes[i].config == self@.config && self@.nodes[i].sent.len() == 0
                    && self@.nodes[i].keyed_by_identity(),
    {
        assert forall|i: int| 0 <= i < self@.nodes.len() implies (#[trigger] self@.nodes[i]).id == i
            && self@.nodes[i].config == self@.config && self@.nodes[i].sent.len() == 0
            && self@.nodes[i].keyed_by_identity() by {
            assert(self.nodes@[i].wf());
            self.nodes@[i].lemma_keyed_by_identity();
        }
    }

    /// A network of `n` nodes with the standard configuration, empty
    /// mempools and an empty mailbox.
    pub fn new(n: u64) -> (r: Network)
        ensures
            r.wf(),
            r@.config == (Config {
                sample_size: 4,
                alpha_num: 3,
                alpha_den: 4,
                beta: 3,
                max_epochs: 4,
            }),
            r@.nodes.len() == n,
            r@.mailbox.len() == 0,
            forall|i: int| 0 <= i < n ==> r@.nodes[i] == NodeModel::empty(i as u64, r@.config),
    {
        Network::with_config(n, Config::standard())
    }

    /// A network of `n` nodes with the given configuration, empty mempools
    /// and an empty mailbox.
    pub fn with_config(n: u64, config: Config) -> (r: Network)
        requires
            config.wf(),
        ensures
            r.wf(),
            r@.config == config,
            r@.nodes.len() == n,
            r@.mailbox.len() == 0,
            forall|i: int| 0 <= i < n ==> r@.nodes[i] == NodeModel::empty(i as u64, config),
    {
        let mut nodes: Vec<Node> = Vec::new();
        let mut i: u64 = 0;
        while i < n
            invariant
                0 <= i <= n,
                config.wf(),
                nodes@.len() == i,
                forall|j: int|
                    0 <= j < i ==> (#[trigger] nodes@[j]).wf() && nodes@[j]@ == NodeModel::empty(
                        j as u64,
                        config,
                    ),
            decreases n - i,
        {
            nodes.push(Node::with_config(i, config));
            i += 1;
        }
        Network { nodes, mailbox: Vec::new(), config }
    }

    /// The number of nodes.
    pub fn len(&self) -> (n: usize)
        ensures
            n == self@.nodes.len(),
    {
        self.nodes.len()
    }

    /// The number of messages waiting in the mailbox.
    pub fn queued(&self) -> (n: usize)
        ensures
            n == self@.mailbox.len(),
    {
        self.mailbox.len()
    }

    /// The node with identifier `id`, if the network has it.
    pub fn node(&self, id: u64) -> (r: Option<&Node>)
        requires
            self.wf(),
        ensures
            r.is_some() <==> id < self@.nodes.len(),
            r matches Some(node) ==> node.wf() && node@ == self@.nodes[id as int],
    {
        if id < self.nodes.len() as u64 {
            Some(&self.nodes[id as usize])
        } else {
            None
        }
    }

    /// Appends a message from `origin` to the mailbox.
    pub fn post(&mut self, origin: u64, msg: Message)
        requires
            old(self).wf(),
        ensures
            final(self).wf(),
            final(self)@ == (NetworkModel {
                mailbox: old(self)@.mailbox.push((origin, msg@)),
                ..old(self)@
            }),
    {
        proof {
            lemma_notes_push(self.mailbox@, (origin, msg));
        }
        self.mailbox.push((origin, msg));
    }

    /// Hands `msg` from `origin` to node `to` and moves what the node
    /// emits to the end of the mailbox. A message that the node refuses,
    /// or one for a node that the network lacks, changes nothing.
    pub fn deliver(&mut self, to: u64, origin: u64, msg: &Message) -> (r: Result<
        Option<(crate::identity::Hash, Status)>,
        Fault,
    >)
        requires
            old(self).wf(),
        ensures
            final(self).wf(),
            old(self)@.keeps_verdicts(final(self)@),
            match r {
                Ok(d) => old(self)@.delivery_refusal(to, msg@).is_none() && final(self)@ == old(self)@.delivered(to as int, origin, msg@) && verdict_view(d) == old(self)@.nodes[to as int].decision(msg@),
                Err(f) => old(self)@.delivery_refusal(to, msg@) == Some(f) && final(self)@ == old(self)@,
            },
    {
        if to >= self.nodes.len() as u64 {
            return Err(Fault::UnknownNode);
        }
        let at = to as usize;
        let ghost before = self.nodes@[at as int]@;
        let r = self.nodes[at].handle_message(origin, msg);
        match r {
            Err(f) => {
                assert(self@.nodes =~= old(self)@.nodes);
                Err(f)
            },
            Ok(d) => {
                let mut out = self.nodes[at].take_outbound();
                proof {
                    lemma_notes_concat(self.mailbox@, out@);
                    lemma_delivery_keeps_verdicts(old(self)@, to as int, origin, msg@);
                }
                self.mailbox.append(&mut out);
                assert(self@.nodes =~= old(self)@.nodes.update(
                    at as int,
                    before.receive(origin, msg@).drained(),
                ));
                Ok(d)
            },
        }
    }

    /// Hands a transaction from outside to node `id`, past the mailbox.
    pub fn inject(&mut self, id: u64, tx: Transaction) -> (r: Result<(), Fault>)
        requires
            old(self).wf(),
        ensures
            final(self).wf(),
            old(self)@.keeps_verdicts(final(self)@),
            r.is_ok() <==> id < old(self)@.nodes.len(),
            r.is_ok() ==> final(self)@ == old(self)@.delivered(
                id as int,
                0,
                Note::Inject { tx },
            ),
            r matches Err(f) ==> f == Fault::UnknownNode && final(self)@ == old(self)@,
    {
        match self.deliver(id, 0, &Message::Transaction(tx)) {
            Ok(_) => Ok(()),
            Err(f) => Err(f),
        }
    }

    /// Hands the query `msg` from `origin` to each of `peers` in turn.
    pub fn fan_out(&mut self, origin: u64, msg: &QueryMessage, peers: &Vec<u64>)
        requires
            old(self).wf(),
            forall|i: int| 0 <= i < peers@.len() ==> peers@[i] < old(self)@.nodes.len(),
        ensures
            final(self).wf(),
            final(self)@ == old(self)@.fanned_out(
                origin,
                Note::Query { tx: msg.tx, status: msg.status },
                peers@,
            ),
            old(self)@.keeps_verdicts(final(self)@),
    {
        let ghost note = Note::Query { tx: msg.tx, status: msg.status };
        proof {
            lemma_fan_out_keeps_verdicts(self@, origin, note, peers@);
        }
        let ghost start = self@;
        let mut j: usize = 0;
        while j < peers.len()
            invariant
                0 <= j <= peers@.len(),
                self.wf(),
                self@.nodes.len() == start.nodes.len(),
                forall|i: int| 0 <= i < peers@.len() ==> peers@[i] < start.nodes.len(),
                note == (Note::Query { tx: msg.tx, status: msg.status }),
                self@ == start.fanned_out(origin, note, peers@.take(j as int)),
            decreases peers@.len() - j,
        {
            let message = Message::Query(*msg);
            assert(message@ == note);
            let _ = self.deliver(peers[j], origin, &message);
            proof {
                assert(peers@.take(j + 1).drop_last() =~= peers@.take(j as int));
            }
            j += 1;
        }
        assert(peers@.take(j as int) =~= peers@);
    }

    /// Routes the oldest message of the mailbox: a query to a fresh random
    /// sample of peers of its origin, a response to the node it names. A
    /// message that cannot be routed stays where it is and nothing changes.
    pub fn step(&mut self) -> (r: Result<Step, Fault>)
        requires
            old(self).wf(),
        ensures
            final(self).wf(),
            old(self)@.keeps_verdicts(final(self)@),
            match r {
                Ok(Step::Idle) => old(self)@.mailbox.len() == 0 && final(self)@ == old(self)@,
                Ok(Step::Routed) => old(self)@.steps_to(final(self)@) && old(self)@.pending_decision().is_none(),
                Ok(Step::Decided(d)) => old(self)@.steps_to(final(self)@) && old(self)@.pending_decision() == Some((d.0, d.1@, d.2)),
                Err(f) => old(self)@.mailbox.len() > 0 && old(self)@.refusal() == Some(f) && final(self)@ == old(self)@,
            },
    {
        if self.mailbox.len() == 0 {
            return Ok(Step::Idle);
        }
        let (origin, msg) = self.mailbox[0];
        let k: usize = self.config.sample_size as usize;
        match msg {
            Message::Transaction(_) => Err(Fault::StrayTransaction),
            Message::Query(q) => {
                let total = self.nodes.len();
                let eligible = if origin < total as u64 {
                    total - 1
                } else {
                    total
                };
                if eligible < k {
                    return Err(Fault::TooFewPeers);
                }
                let peers = sample_nodes(&self.nodes, k, origin);
                self.mailbox.remove(0);
                assert(self@ == old(self)@.popped()) by {
                    assert(self@.mailbox =~= old(self)@.mailbox.drop_first());
                }
                self.fan_out(origin, &q, &peers);
                assert(old(self)@.valid_sample(peers@, origin));
                assert(old(self)@.keeps_verdicts(self@));
                Ok(Step::Routed)
            },
            Message::QueryResponse((to, _)) => {
                match self.deliver(to, origin, &msg) {
                    Err(f) => Err(f),
                    Ok(d) => {
                        let ghost mid = self.mailbox@;
                        let ghost sent = old(self)@.nodes[to as int].receive(origin, msg@).sent;
                        assert(notes(mid) == old(self)@.mailbox + sent);
                        assert(notes(mid).len() == mid.len());
                        self.mailbox.remove(0);
                        assert(self@ == old(self)@.popped().delivered(to as int, origin, msg@)) by {
                            assert(notes(self.mailbox@) =~= notes(mid).drop_first());
                            assert(notes(mid).drop_first() =~= old(self)@.mailbox.drop_first()
                                + sent);
                        }
                        match d {
                            Some((h, s)) => Ok(Step::Decided((to, h, s))),
                            None => Ok(Step::Routed),
                        }
                    },
                }
            },
        }
    }

    /// Routes messages until the mailbox is empty, a message cannot be
    /// routed, or `limit` messages have been routed. Returns the decisions
    /// made on the way, oldest first, and the fault that stopped the run,
    /// if one did.
    pub fn run(&mut self, limit: usize) -> (r: (Vec<Decision>, Option<Fault>))
        requires
            old(self).wf(),
        ensures
            final(self).wf(),
            old(self)@.keeps_verdicts(final(self)@),
            exists|trace: Seq<NetworkModel>|
                #![trigger is_run(trace)]
                {
                    &&& is_run(trace)
                    &&& trace.len() <= limit + 1
                    &&& trace[0] == old(self)@
                    &&& trace.last() == final(self)@
                    &&& decisions_view(r.0@) == decisions_of(trace)
                    &&& r.1.is_none() ==> final(self)@.mailbox.len() == 0 || trace.len() == limit
                        + 1
                },
            r.1 matches Some(f) ==> final(self)@.mailbox.len() > 0 && final(self)@.refusal()
                == Some(f),
    {
        let mut log: Vec<Decision> = Vec::new();
        let ghost mut trace: Seq<NetworkModel> = seq![self@];
        let mut done: usize = 0;
        assert(decisions_view(log@) =~= decisions_of(trace));
        while done < limit
            invariant
                self.wf(),
                done <= limit,
                is_run(trace),
                trace.len() == done + 1,
                trace[0] == old(self)@,
                trace.last() == self@,
                decisions_view(log@) == decisions_of(trace),
            decreases limit - done,
        {
            let ghost before = self@;
            let ghost earlier = trace;
            match self.step() {
                Err(f) => {
                    proof {
                        lemma_run_keeps_verdicts(trace);
                    }
                    return (log, Some(f));
                },
                Ok(Step::Idle) => {
                    proof {
                        lemma_run_keeps_verdicts(trace);
                    }
                    return (log, None);
                },
                Ok(Step::Routed) => {
                    proof {
                        trace = trace.push(self@);
                        assert(trace.drop_last() =~= earlier);
                    }
                },
                Ok(Step::Decided(d)) => {
                    proof {
                        trace = trace.push(self@);
                        assert(trace.drop_last() =~= earlier);
                        assert(decisions_view(log@.push(d)) =~= decisions_view(log@).push(
                            (d.0, d.1@, d.2),
                        ));
                    }
                    log.push(d);
                },
            }
            done += 1;
        }
        proof {
            lemma_run_keeps_verdicts(trace);
        }
        (log, None)
    }
}

} // verus!
