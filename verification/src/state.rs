//! The per-transaction consensus state machine that every node runs.

use vstd::prelude::*;

use crate::config::Config;
use crate::identity::Transaction;
use crate::status::Status;

verus! {

/// How many entries of `responses` equal `s`.
pub open spec fn tally(responses: Seq<Status>, s: Status) -> nat
    decreases responses.len(),
{
    if responses.len() == 0 {
        0
    } else {
        tally(responses.drop_last(), s) + if responses.last() == s {
            1nat
        } else {
            0nat
        }
    }
}

/// The mathematical value of a consensus state.
pub ghost struct StateModel {
    pub tx: Transaction,
    pub status: Status,
    pub epoch: nat,
    pub responses: Seq<Status>,
    pub confidence_valid: nat,
    pub confidence_invalid: nat,
    pub streak_belief: Status,
    pub streak_count: nat,
    pub is_final: bool,
}

impl StateModel {
    /// The state of a transaction that was just seen for the first time.
    pub open spec fn fresh(tx: Transaction, status: Status) -> StateModel {
        StateModel {
            tx,
            status,
            epoch: 0,
            responses: Seq::empty(),
            confidence_valid: 0,
            confidence_invalid: 0,
            streak_belief: Status::Invalid,
            streak_count: 0,
            is_final: false,
        }
    }

    /// The number of quorum confirmations seen so far for `s`.
    pub open spec fn confidence(self, s: Status) -> nat {
        match s {
            Status::Valid => self.confidence_valid,
            Status::Invalid => self.confidence_invalid,
        }
    }

    /// The state with one more quorum confirmation for `s`.
    pub open spec fn confirmed(self, s: Status) -> StateModel {
        match s {
            Status::Valid => StateModel { confidence_valid: self.confidence_valid + 1, ..self },
            Status::Invalid => StateModel {
                confidence_invalid: self.confidence_invalid + 1,
                ..self
            },
        }
    }

    /// The state one epoch later, with an empty round.
    pub open spec fn advanced(self) -> StateModel {
        StateModel { epoch: self.epoch + 1, responses: Seq::empty(), ..self }
    }

    /// Whether a response `s` completes a quorum for `s` in the current
    /// round, counted with `s` itself.
    pub open spec fn quorum_reached(self, s: Status, cfg: Config) -> bool {
        tally(self.responses.push(s), s) >= cfg.quorum()
    }

    /// The state after a response `s` has been processed.
    pub open spec fn respond(self, s: Status, cfg: Config) -> StateModel {
        if self.is_final {
            self
        } else if !self.quorum_reached(s, cfg) {
            StateModel { responses: self.responses.push(s), ..self }
        } else {
            let seen = StateModel { responses: self.responses.push(s), ..self }.confirmed(s);
            let status = if seen.confidence(s) > seen.confidence(self.status) {
                s
            } else {
                self.status
            };
            if s != self.streak_belief {
                StateModel { status, streak_belief: s, streak_count: 0, ..seen }
            } else {
                let streak = StateModel { status, streak_count: self.streak_count + 1, ..seen };
                if streak.streak_count > cfg.beta {
                    let next = streak.advanced();
                    StateModel { is_final: next.epoch == cfg.max_epochs, ..next }
                } else {
                    streak
                }
            }
        }
    }

    /// Whether processing `s` is the step on which the verdict becomes
    /// final.
    pub open spec fn decides(self, s: Status, cfg: Config) -> bool {
        !self.is_final && self.respond(s, cfg).is_final
    }

    /// Whether the machine counters can take one more step.
    pub open spec fn has_room(self) -> bool {
        self.is_final || (self.confidence_valid < u32::MAX && self.confidence_invalid < u32::MAX
            && self.streak_count < u32::MAX && self.epoch < u32::MAX)
    }
}

/// The consensus state that one node keeps for one transaction.
#[derive(Clone, Debug)]
pub struct TxState {
    pub epoch: u32,
    pub tx: Transaction,
    pub status: Status,
    /// The responses of the current round, in arrival order.
    pub responses: Vec<Status>,
    pub is_final: bool,
    /// Quorum confirmations ever seen for `Valid`.
    pub cnt_valid: u32,
    /// Quorum confirmations ever seen for `Invalid`.
    pub cnt_invalid: u32,
    /// Consecutive quorum confirmations that agreed with `last_status`.
    pub cnt: u32,
    /// The belief of the latest quorum confirmation.
    pub last_status: Status,
}

impl View for TxState {
    type V = StateModel;

    open spec fn view(&self) -> StateModel {
        StateModel {
            tx: self.tx,
            status: self.status,
            epoch: self.epoch as nat,
            responses: self.responses@,
            confidence_valid: self.cnt_valid as nat,
            confidence_invalid: self.cnt_invalid as nat,
            streak_belief: self.last_status,
            streak_count: self.cnt as nat,
            is_final: self.is_final,
        }
    }
}

impl TxState {
    /// The state of a transaction seen for the first time with belief
    /// `status`.
    pub fn new(tx: Transaction, status: Status) -> (r: TxState)
        ensures
            r@ == StateModel::fresh(tx, status),
    {
        TxState {
            responses: Vec::new(),
            is_final: false,
            last_status: Status::Invalid,
            epoch: 0,
            cnt_valid: 0,
            cnt_invalid: 0,
            cnt: 0,
            tx,
            status,
        }
    }

    /// Counts one more quorum confirmation for `s` and returns the new
    /// count.
    pub fn incr_status(&mut self, s: &Status) -> (c: u32)
        requires
            old(self)@.confidence(*s) < u32::MAX,
        ensures
            final(self)@ == old(self)@.confirmed(*s),
            c == final(self)@.confidence(*s),
            c == old(self)@.confidence(*s) + 1,
    {
        match s {
            Status::Valid => {
                self.cnt_valid += 1;
                self.cnt_valid
            },
            Status::Invalid => {
                self.cnt_invalid += 1;
                self.cnt_invalid
            },
        }
    }

    /// The number of quorum confirmations seen for `s`.
    pub fn status_count(&self, s: &Status) -> (c: u32)
        ensures
            c == self@.confidence(*s),
    {
        match s {
            Status::Valid => self.cnt_valid,
            Status::Invalid => self.cnt_invalid,
        }
    }

    /// Moves to the next epoch and empties the round.
    pub fn advance(&mut self)
        requires
            old(self).epoch < u32::MAX,
        ensures
            final(self)@ == old(self)@.advanced(),
    {
        self.epoch += 1;
        self.responses.clear();
    }

    /// How many responses of the current round equal `s`.
    pub fn count_responses(&self, s: Status) -> (n: usize)
        ensures
            n == tally(self.responses@, s),
    {
        let mut n: usize = 0;
        let mut i: usize = 0;
        while i < self.responses.len()
            invariant
                0 <= i <= self.responses@.len(),
                n <= i,
                n == tally(self.responses@.subrange(0, i as int), s),
            decreases self.responses@.len() - i,
        {
            assert(self.responses@.subrange(0, i + 1).drop_last() =~= self.responses@.subrange(
                0,
                i as int,
            ));
            if self.responses[i] == s {
                n += 1;
            }
            i += 1;
        }
        assert(self.responses@.subrange(0, i as int) =~= self.responses@);
        n
    }

    /// Whether the counters can take one more step.
    pub fn has_room(&self) -> (b: bool)
        ensures
            b == self@.has_room(),
    {
        self.is_final || (self.cnt_valid < u32::MAX && self.cnt_invalid < u32::MAX && self.cnt
            < u32::MAX && self.epoch < u32::MAX)
    }

    /// Processes one response with belief `s`. Returns whether the verdict
    /// became final on this step.
    pub fn on_response(&mut self, s: Status, cfg: &Config) -> (decided: bool)
        requires
            cfg.wf(),
            old(self)@.has_room(),
        ensures
            final(self)@ == old(self)@.respond(s, *cfg),
            decided == old(self)@.decides(s, *cfg),
    {
        if self.is_final {
            return false;
        }
        self.responses.push(s);
        let n = self.count_responses(s);
        if n as u64 >= cfg.quorum_threshold() {
            let c = self.incr_status(&s);
            let ours = self.status_count(&self.status);
            if c > ours {
                self.status = s;
            }
            if s != self.last_status {
                self.last_status = s;
                self.cnt = 0;
            } else {
                self.cnt += 1;
                if self.cnt > cfg.beta {
                    self.advance();
                    if self.epoch == cfg.max_epochs {
                        self.is_final = true;
                        return true;
                    }
                }
            }
        }
        false
    }
}

/// The epoch never decreases, and a final state stays final.
pub proof fn lemma_epoch_monotonic(st: StateModel, s: Status, cfg: Config)
    ensures
        st.respond(s, cfg).epoch >= st.epoch,
        st.respond(s, cfg).epoch <= st.epoch + 1,
        st.is_final ==> st.respond(s, cfg).is_final,
        st.respond(s, cfg).epoch > st.epoch ==> st.respond(s, cfg).responses.len() == 0,
{
}

/// The confidence counters never decrease, and one step adds at most one
/// confirmation, to the belief that the response carried.
pub proof fn lemma_confidence_monotonic(st: StateModel, s: Status, t: Status, cfg: Config)
    ensures
        st.respond(s, cfg).confidence(t) >= st.confidence(t),
        st.respond(s, cfg).confidence(t) <= st.confidence(t) + 1,
        t != s ==> st.respond(s, cfg).confidence(t) == st.confidence(t),
{
}

/// A final state is frozen: no response changes anything in it, and none
/// is the deciding one.
pub proof fn lemma_final_is_frozen(st: StateModel, s: Status, cfg: Config)
    requires
        st.is_final,
    ensures
        st.respond(s, cfg) == st,
        !st.decides(s, cfg),
{
}

/// The belief changes only on a quorum for the new belief, and only when
/// the confidence in the new belief strictly exceeds the confidence in the
/// belief held until then.
pub proof fn lemma_flip_needs_more_confidence(st: StateModel, s: Status, cfg: Config)
    requires
        st.respond(s, cfg).status != st.status,
    ensures
        !st.is_final,
        st.quorum_reached(s, cfg),
        st.respond(s, cfg).status == s,
        st.respond(s, cfg).confidence(s) > st.respond(s, cfg).confidence(st.status),
        st.respond(s, cfg).confidence(s) == st.confidence(s) + 1,
{
}

/// A response that agrees with the belief held never changes it: under
/// unanimous agreement there is no flip on the way to finality.
pub proof fn lemma_agreeing_response_keeps_belief(st: StateModel, s: Status, cfg: Config)
    requires
        st.status == s,
    ensures
        st.respond(s, cfg).status == s,
{
}

/// A quorum for a belief other than the one of the running streak starts
/// a new streak of length zero for that belief and advances no epoch; a
/// quorum for the belief of the streak lengthens it by one.
pub proof fn lemma_streak_reset(st: StateModel, s: Status, cfg: Config)
    requires
        !st.is_final,
        st.quorum_reached(s, cfg),
    ensures
        s != st.streak_belief ==> st.respond(s, cfg).streak_count == 0 && st.respond(
            s,
            cfg,
        ).streak_belief == s && st.respond(s, cfg).epoch == st.epoch && !st.respond(
            s,
            cfg,
        ).is_final,
        s == st.streak_belief ==> st.respond(s, cfg).streak_count == st.streak_count + 1
            && st.respond(s, cfg).streak_belief == s,
{
}

/// Without a quorum a response is recorded and nothing else changes.
pub proof fn lemma_no_quorum_no_change(st: StateModel, s: Status, cfg: Config)
    requires
        !st.is_final,
        !st.quorum_reached(s, cfg),
    ensures
        st.respond(s, cfg) == (StateModel { responses: st.responses.push(s), ..st }),
{
}

/// A verdict becomes final only on the step that completes the last epoch.
pub proof fn lemma_final_only_at_last_epoch(st: StateModel, s: Status, cfg: Config)
    requires
        st.decides(s, cfg),
    ensures
        st.respond(s, cfg).epoch == cfg.max_epochs,
        st.respond(s, cfg).epoch == st.epoch + 1,
        st.quorum_reached(s, cfg),
        s == st.streak_belief,
        st.streak_count + 1 > cfg.beta,
{
}

} // verus!
