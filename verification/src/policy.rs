//! The delivery policy: the decision function a consumer applies to each
//! delivery of one subscription, mapping the delivery's 0-based position to
//! a positive acknowledgement or a negative one that routes the message to
//! the dead-letter exchange.

use vstd::prelude::*;

verus! {

/// Number of deliveries between two rejections under
/// [`DeliveryPolicy::PeriodicReject`]: the delivery at every position that
/// is a multiple of this period is rejected.
pub const REJECT_PERIOD: u64 = 10;

/// What a consumer does with one delivery.
#[derive(Clone, Copy, PartialEq, Eq, Structural, Debug)]
pub enum Decision {
    /// Positive acknowledgement: the broker drops the message.
    Ack,
    /// Negative acknowledgement with requeue = false: the broker routes the
    /// message to the dead-letter exchange if the queue declared one.
    NackToDeadLetter,
}

/// The decision rule a consumer runs every delivery through.
#[derive(Clone, Copy, PartialEq, Eq, Structural, Debug)]
pub enum DeliveryPolicy {
    /// Acknowledge every delivery.
    AckAll,
    /// Reject the delivery at every position that is a multiple of
    /// [`REJECT_PERIOD`] (positions 0, 10, 20, ... of the current
    /// subscription), acknowledge all others.
    PeriodicReject,
}

/// The decision for the delivery at 0-based position `pos` within one
/// subscription.
pub open spec fn policy_decision(policy: DeliveryPolicy, pos: nat) -> Decision {
    if policy is PeriodicReject && pos % (REJECT_PERIOD as nat) == 0 {
        Decision::NackToDeadLetter
    } else {
        Decision::Ack
    }
}

/// How many of the deliveries at positions `0 .. n` the policy rejects.
pub open spec fn nack_count(policy: DeliveryPolicy, n: nat) -> nat
    decreases n,
{
    if n == 0 {
        0
    } else {
        nack_count(policy, (n - 1) as nat) + if policy_decision(policy, (n - 1) as nat)
            is NackToDeadLetter {
            1nat
        } else {
            0nat
        }
    }
}

impl DeliveryPolicy {
    /// Decide the fate of the delivery at 0-based position `pos` of the
    /// current subscription. Positions are taken modulo [`REJECT_PERIOD`]
    /// by the caller that tracks them, so any `pos` with the right residue
    /// yields the same decision.
    pub fn decide(self, pos: u64) -> (d: Decision)
        ensures
            d == policy_decision(self, pos as nat),
    {
        match self {
            DeliveryPolicy::AckAll => Decision::Ack,
            DeliveryPolicy::PeriodicReject => {
                if pos % REJECT_PERIOD == 0 {
                    Decision::NackToDeadLetter
                } else {
                    Decision::Ack
                }
            },
        }
    }
}

/// Law: under `AckAll` every delivery is acknowledged.
pub proof fn lemma_ack_all(pos: nat)
    ensures
        policy_decision(DeliveryPolicy::AckAll, pos) == Decision::Ack,
{
}

/// Law: under `PeriodicReject`, within one subscription the rejected
/// deliveries are exactly those at positions 0, 10, 20, ...; over the first
/// `n` deliveries that makes `(n + 9) / 10` of them, which is `n / 10` when
/// `n` is a multiple of the period.
pub proof fn lemma_periodic_reject_pattern(n: nat)
    ensures
        forall|i: nat|
            i < n ==> (policy_decision(DeliveryPolicy::PeriodicReject, i)
                == Decision::NackToDeadLetter <==> i % 10 == 0),
        nack_count(DeliveryPolicy::PeriodicReject, n) == (n + 9) / 10,
        n % 10 == 0 ==> nack_count(DeliveryPolicy::PeriodicReject, n) == n / 10,
    decreases n,
{
    if n == 0 {
    } else {
        let m = (n - 1) as nat;
        lemma_periodic_reject_pattern(m);
        assert(nack_count(DeliveryPolicy::PeriodicReject, n) == (m + 9) / 10 + if m % 10 == 0 {
            1nat
        } else {
            0nat
        });
        assert((m + 9) / 10 + (if m % 10 == 0 { 1int } else { 0int }) == (n + 9) / 10) by (nonlinear_arith)
            requires
                m == n - 1,
                n >= 1,
        ;
        assert(n % 10 == 0 ==> (n + 9) / 10 == n / 10) by (nonlinear_arith);
    }
}

} // verus!
