//! Protocol parameters.

use vstd::prelude::*;

verus! {

/// The parameters of the voting protocol. The quorum fraction `alpha` is the
/// rational `alpha_num / alpha_den`.
#[derive(Clone, Copy, Debug, PartialEq, Eq)]
pub struct Config {
    /// Number of peers asked per query (`k`).
    pub sample_size: u32,
    /// Numerator of the quorum fraction.
    pub alpha_num: u32,
    /// Denominator of the quorum fraction.
    pub alpha_den: u32,
    /// Streak length that must be exceeded before an epoch advances (`beta`).
    pub beta: u32,
    /// Number of epochs after which a verdict is final (`m`).
    pub max_epochs: u32,
}

/// The least integer that is at least `num * k / den`.
pub open spec fn ceil_fraction(k: nat, num: nat, den: nat) -> nat
    recommends
        den > 0,
{
    ((k * num + den - 1) / (den as int)) as nat
}

impl Config {
    /// The quorum fraction lies in (0, 1].
    pub open spec fn wf(self) -> bool {
        0 < self.alpha_num <= self.alpha_den
    }

    /// The number of agreeing responses that makes a quorum:
    /// `ceil(alpha * k)`.
    pub open spec fn quorum(self) -> nat {
        ceil_fraction(self.sample_size as nat, self.alpha_num as nat, self.alpha_den as nat)
    }

    /// Builds a configuration, or `None` when the quorum fraction is not
    /// in (0, 1].
    pub fn new(sample_size: u32, alpha_num: u32, alpha_den: u32, beta: u32, max_epochs: u32) -> (r:
        Option<Config>)
        ensures
            r.is_some() <==> 0 < alpha_num <= alpha_den,
            r.is_some() ==> r.unwrap() == (Config {
                sample_size,
                alpha_num,
                alpha_den,
                beta,
                max_epochs,
            }),
    {
        if alpha_num == 0 || alpha_num > alpha_den {
            None
        } else {
            Some(Config { sample_size, alpha_num, alpha_den, beta, max_epochs })
        }
    }

    /// Four peers per query, a quorum of three quarters, a streak bound of
    /// three and four epochs to finality.
    pub fn standard() -> (r: Config)
        ensures
            r == (Config { sample_size: 4, alpha_num: 3, alpha_den: 4, beta: 3, max_epochs: 4 }),
            r.wf(),
            r.quorum() == 3,
    {
        Config { sample_size: 4, alpha_num: 3, alpha_den: 4, beta: 3, max_epochs: 4 }
    }

    /// Computes the quorum threshold.
    pub fn quorum_threshold(&self) -> (q: u64)
        requires
            self.wf(),
        ensures
            q == self.quorum(),
            q <= self.sample_size,
    {
        let k: u64 = self.sample_size as u64;
        let num: u64 = self.alpha_num as u64;
        let den: u64 = self.alpha_den as u64;
        assert(k * num <= 0xffff_ffff * 0xffff_ffff) by (nonlinear_arith)
            requires
                k <= 0xffff_ffff,
                num <= 0xffff_ffff,
        ;
        let q: u64 = (k * num + den - 1) / den;
        proof {
            lemma_quorum_bounds(k as nat, num as nat, den as nat);
        }
        q
    }
}

/// A quorum never asks for more responses than a round can hold, and asks
/// for at least one as soon as the round holds one.
pub proof fn lemma_quorum_bounds(k: nat, num: nat, den: nat)
    requires
        0 < num <= den,
    ensures
        ceil_fraction(k, num, den) <= k,
        k > 0 ==> ceil_fraction(k, num, den) >= 1,
{
    let q = (k * num + den - 1) / (den as int);
    assert(k * num <= k * den) by (nonlinear_arith)
        requires
            num <= den,
    ;
    assert(q <= k) by (nonlinear_arith)
        requires
            q == (k * num + den - 1) / (den as int),
            k * num <= k * den,
            den > 0,
    ;
    if k > 0 {
        assert(k * num >= 1) by (nonlinear_arith)
            requires
                k >= 1,
                num >= 1,
        ;
        assert(q >= 1) by (nonlinear_arith)
            requires
                q == (k * num + den - 1) / (den as int),
                k * num >= 1,
                den > 0,
        ;
    }
}

} // verus!
