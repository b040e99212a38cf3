//! The consumer session state machine.
//!
//! One subscription attempt walks the states Connecting -> Subscribing ->
//! Serving -> Restarting and back to Connecting. The machine itself does no
//! I/O: a driver performs each returned [`SessionAction`] against the broker
//! and feeds the outcome back as a [`SessionEvent`]. Whenever the delivery
//! stream ends the whole chain (connection, channel, topology, subscription)
//! is rebuilt from scratch, and the delivery-policy counter starts over.

use vstd::prelude::*;
use crate::policy::{Decision, DeliveryPolicy, REJECT_PERIOD, policy_decision};

verus! {

/// One message as the broker handed it over.
pub struct Delivery {
    /// The message body, UTF-8 text treated as opaque bytes by this core.
    pub payload: Vec<u8>,
    /// Per-channel monotonic identifier used to acknowledge or reject this
    /// exact message.
    pub delivery_tag: u64,
    /// Whether the broker marked the message as delivered before.
    pub redelivered: bool,
}

/// Where one subscription attempt stands.
#[derive(Clone, Copy, PartialEq, Eq, Structural, Debug)]
pub enum SessionState {
    /// Establishing connection, channel and topology.
    Connecting,
    /// Chain ready; the consume request must be issued.
    Subscribing,
    /// Receiving deliveries. `phase` is the 0-based position of the next
    /// delivery within this subscription, reduced modulo [`REJECT_PERIOD`].
    Serving { phase: u64 },
    /// The delivery stream ended; the consumer tag must be cancelled before
    /// the chain is rebuilt.
    Restarting,
}

/// What happened in the outside world, reported by the driver.
pub enum SessionEvent {
    /// Connection open, channel open, queue declared and bound.
    ChainEstablished,
    /// The consume request returned a consumer tag and a delivery stream.
    ConsumeStarted,
    /// The broker delivered one message.
    Delivered { delivery: Delivery },
    /// The delivery stream ended: the channel or connection was lost.
    StreamEnded,
    /// The cancel call finished (its failure is logged, never fatal).
    CancelFinished,
}

/// What the driver must do next.
#[derive(Clone, Copy, PartialEq, Eq, Structural, Debug)]
pub enum SessionAction {
    /// Open or repair the connection, open a channel on it, declare and bind
    /// a queue — the whole chain, in that order.
    EstablishChain,
    /// Issue the consume request for the bound queue.
    StartConsume,
    /// Wait for the next delivery or for the stream to end.
    AwaitDelivery,
    /// Positively acknowledge this delivery tag, then await the next one.
    Ack { delivery_tag: u64 },
    /// Negatively acknowledge this delivery tag with requeue = false and
    /// multiple = false, routing the message to the dead-letter exchange if
    /// the queue declared one; then await the next delivery.
    NackToDeadLetter { delivery_tag: u64 },
    /// Cancel the consumer tag, then rebuild the chain.
    CancelConsumer,
}

/// The action a driver owes the machine in a given state, before any new
/// event arrives.
pub open spec fn required_action(s: SessionState) -> SessionAction {
    match s {
        SessionState::Connecting => SessionAction::EstablishChain,
        SessionState::Subscribing => SessionAction::StartConsume,
        SessionState::Serving { .. } => SessionAction::AwaitDelivery,
        SessionState::Restarting => SessionAction::CancelConsumer,
    }
}

/// The phase that follows `phase` once a delivery was handled.
pub open spec fn next_phase(phase: u64) -> u64 {
    (((phase as int) + 1) % (REJECT_PERIOD as int)) as u64
}

/// The action taken for one delivery decided at `phase`.
pub open spec fn delivery_action(policy: DeliveryPolicy, phase: u64, tag: u64) -> SessionAction {
    if policy_decision(policy, phase as nat) == Decision::NackToDeadLetter {
        SessionAction::NackToDeadLetter { delivery_tag: tag }
    } else {
        SessionAction::Ack { delivery_tag: tag }
    }
}

/// The transition relation: from a state and an event to the next state and
/// the action the driver must perform. An event that the state does not
/// expect leaves the state alone and restates the owed action.
pub open spec fn spec_step(policy: DeliveryPolicy, s: SessionState, e: SessionEvent) -> (
    SessionState,
    SessionAction,
) {
    match (s, e) {
        (SessionState::Connecting, SessionEvent::ChainEstablished) => (
            SessionState::Subscribing,
            SessionAction::StartConsume,
        ),
        (SessionState::Subscribing, SessionEvent::ConsumeStarted) => (
            SessionState::Serving { phase: 0 },
            SessionAction::AwaitDelivery,
        ),
        (SessionState::Serving { phase }, SessionEvent::Delivered { delivery }) => (
            SessionState::Serving { phase: next_phase(phase) },
            delivery_action(policy, phase, delivery.delivery_tag),
        ),
        (SessionState::Serving { .. }, SessionEvent::StreamEnded) => (
            SessionState::Restarting,
            SessionAction::CancelConsumer,
        ),
        (SessionState::Restarting, SessionEvent::CancelFinished) => (
            SessionState::Connecting,
            SessionAction::EstablishChain,
        ),
        (s, _) => (s, required_action(s)),
    }
}

/// The machine driven over a whole sequence of events: the state it ends in
/// and the actions it returned along the way.
pub open spec fn spec_run(
    policy: DeliveryPolicy,
    s: SessionState,
    events: Seq<SessionEvent>,
) -> (SessionState, Seq<SessionAction>)
    decreases events.len(),
{
    if events.len() == 0 {
        (s, Seq::empty())
    } else {
        let first = spec_step(policy, s, events[0]);
        let rest = spec_run(policy, first.0, events.drop_first());
        (rest.0, seq![first.1] + rest.1)
    }
}

/// Every event in the sequence is a delivery.
pub open spec fn all_deliveries(events: Seq<SessionEvent>) -> bool {
    forall|i: int| 0 <= i < events.len() ==> events[i] is Delivered
}

/// The delivery tag an event carries (0 for events that carry none).
pub open spec fn event_tag(e: SessionEvent) -> u64 {
    match e {
        SessionEvent::Delivered { delivery } => delivery.delivery_tag,
        _ => 0,
    }
}

/// The action owed to the delivery `e` at 0-based position `pos` of its own
/// subscription.
pub open spec fn decided_action(policy: DeliveryPolicy, pos: nat, e: SessionEvent) -> SessionAction {
    if policy_decision(policy, pos) == Decision::NackToDeadLetter {
        SessionAction::NackToDeadLetter { delivery_tag: event_tag(e) }
    } else {
        SessionAction::Ack { delivery_tag: event_tag(e) }
    }
}

/// How many of the actions are negative acknowledgements.
pub open spec fn count_nacks(acts: Seq<SessionAction>) -> nat
    decreases acts.len(),
{
    if acts.len() == 0 {
        0
    } else {
        count_nacks(acts.drop_last()) + if acts.last() is NackToDeadLetter {
            1nat
        } else {
            0nat
        }
    }
}

/// Running the machine over `e1 + e2` is running it over `e1`, then over
/// `e2` from where `e1` left it.
pub proof fn lemma_run_append(
    policy: DeliveryPolicy,
    s: SessionState,
    e1: Seq<SessionEvent>,
    e2: Seq<SessionEvent>,
)
    ensures
        spec_run(policy, s, e1 + e2).0 == spec_run(policy, spec_run(policy, s, e1).0, e2).0,
        spec_run(policy, s, e1 + e2).1 =~= spec_run(policy, s, e1).1 + spec_run(
            policy,
            spec_run(policy, s, e1).0,
            e2,
        ).1,
    decreases e1.len(),
{
    if e1.len() == 0 {
        assert(e1 + e2 =~= e2);
        assert(spec_run(policy, s, e1).1 + spec_run(policy, s, e2).1 =~= spec_run(
            policy,
            s,
            e2,
        ).1);
    } else {
        let first = spec_step(policy, s, e1[0]);
        assert((e1 + e2).drop_first() =~= e1.drop_first() + e2);
        lemma_run_append(policy, first.0, e1.drop_first(), e2);
    }
}

/// Serving deliveries from phase `k % 10`: the i-th delivery is decided as
/// position `k + i` of the subscription, and the phase keeps tracking the
/// position modulo the period.
pub proof fn lemma_serving_run(policy: DeliveryPolicy, events: Seq<SessionEvent>, k: nat)
    requires
        all_deliveries(events),
    ensures
        ({
            let r = spec_run(
                policy,
                SessionState::Serving { phase: (k % 10) as u64 },
                events,
            );
            &&& r.0 == (SessionState::Serving { phase: ((k + events.len()) % 10) as u64 })
            &&& r.1.len() == events.len()
            &&& forall|i: int|
                0 <= i < events.len() ==> r.1[i] == decided_action(
                    policy,
                    (k + i) as nat,
                    events[i],
                )
        }),
    decreases events.len(),
{
    if events.len() == 0 {
    } else {
        let p = (k % 10) as u64;
        assert(p < 10);
        let step = spec_step(policy, SessionState::Serving { phase: p }, events[0]);
        assert((p as nat) % 10 == k % 10) by (nonlinear_arith)
            requires
                p == k % 10,
        ;
        assert(step.1 == decided_action(policy, k, events[0]));
        assert(next_phase(p) == ((k + 1) % 10) as u64) by (nonlinear_arith)
            requires
                p == k % 10,
        ;
        lemma_serving_run(policy, events.drop_first(), k + 1);
        assert forall|i: int| 0 <= i < events.len() implies spec_run(
            policy,
            SessionState::Serving { phase: p },
            events,
        ).1[i] == decided_action(policy, (k + i) as nat, events[i]) by {
            if i > 0 {
                assert(events.drop_first()[i - 1] == events[i]);
            }
        }
    }
}

/// The four events that end one subscription and begin the next.
pub open spec fn rebuild_events() -> Seq<SessionEvent> {
    seq![
        SessionEvent::StreamEnded,
        SessionEvent::CancelFinished,
        SessionEvent::ChainEstablished,
        SessionEvent::ConsumeStarted,
    ]
}

/// Law: rebuilding the subscription resets the rejection counter. From any
/// serving phase, a stream end followed by cancel, chain rebuild and a new
/// consume lands back in `Serving` with the phase at 0, the driver having
/// been told to cancel, re-establish the chain, re-subscribe and wait.
pub proof fn lemma_rebuild_resets_counter(policy: DeliveryPolicy, phase: u64)
    ensures
        spec_run(policy, SessionState::Serving { phase }, rebuild_events()).0
            == (SessionState::Serving { phase: 0 }),
        spec_run(policy, SessionState::Serving { phase }, rebuild_events()).1 =~= seq![
            SessionAction::CancelConsumer,
            SessionAction::EstablishChain,
            SessionAction::StartConsume,
            SessionAction::AwaitDelivery,
        ],
{
    reveal_with_fuel(spec_run, 5);
    let e = rebuild_events();
    assert(e.drop_first() =~= seq![
        SessionEvent::CancelFinished,
        SessionEvent::ChainEstablished,
        SessionEvent::ConsumeStarted,
    ]);
    assert(e.drop_first().drop_first() =~= seq![
        SessionEvent::ChainEstablished,
        SessionEvent::ConsumeStarted,
    ]);
    assert(e.drop_first().drop_first().drop_first() =~= seq![SessionEvent::ConsumeStarted]);
    assert(e.drop_first().drop_first().drop_first().drop_first() =~= Seq::<
        SessionEvent,
    >::empty());
}

/// Law: over two consecutive subscriptions, each one sees its own "every
/// 10th" boundary starting from its own position 0 — the decision for the
/// i-th delivery of either subscription depends only on i.
pub proof fn lemma_two_subscriptions(
    policy: DeliveryPolicy,
    first: Seq<SessionEvent>,
    second: Seq<SessionEvent>,
)
    requires
        all_deliveries(first),
        all_deliveries(second),
    ensures
        ({
            let r = spec_run(
                policy,
                SessionState::Serving { phase: 0 },
                first + rebuild_events() + second,
            );
            &&& r.1.len() == first.len() + 4 + second.len()
            &&& forall|i: int|
                0 <= i < first.len() ==> r.1[i] == decided_action(policy, i as nat, first[i])
            &&& forall|i: int|
                0 <= i < second.len() ==> r.1[first.len() + 4 + i] == decided_action(
                    policy,
                    i as nat,
                    second[i],
                )
            &&& r.0 == (SessionState::Serving { phase: (second.len() % 10) as u64 })
        }),
{
    let s0 = SessionState::Serving { phase: 0 };
    assert((0nat % 10) as u64 == 0) by (nonlinear_arith);
    lemma_serving_run(policy, first, 0);
    let s1 = spec_run(policy, s0, first).0;
    lemma_rebuild_resets_counter(policy, ((0 + first.len()) % 10) as u64);
    let s2 = spec_run(policy, s1, rebuild_events()).0;
    lemma_serving_run(policy, second, 0);
    lemma_run_append(policy, s0, first, rebuild_events());
    lemma_run_append(policy, s0, first + rebuild_events(), second);
    assert(first + rebuild_events() + second == (first + rebuild_events()) + second);
    let a1 = spec_run(policy, s0, first).1;
    let a2 = spec_run(policy, s1, rebuild_events()).1;
    let a3 = spec_run(policy, s2, second).1;
    let all = spec_run(policy, s0, first + rebuild_events() + second).1;
    assert(all =~= (a1 + a2) + a3);
    assert(a2.len() == 4);
    assert forall|i: int| 0 <= i < second.len() implies all[first.len() + 4 + i] == decided_action(
        policy,
        i as nat,
        second[i],
    ) by {
        assert(all[first.len() + 4 + i] == a3[i]);
    }
}

/// Law: within one subscription of `n` deliveries, `PeriodicReject` rejects
/// exactly the deliveries at positions 0, 10, 20, ... — `(n + 9) / 10` of
/// them in all, which is `n / 10` when `n` is a multiple of the period.
pub proof fn lemma_periodic_reject_per_subscription(events: Seq<SessionEvent>)
    requires
        all_deliveries(events),
    ensures
        ({
            let r = spec_run(
                DeliveryPolicy::PeriodicReject,
                SessionState::Serving { phase: 0 },
                events,
            );
            &&& r.1.len() == events.len()
            &&& forall|i: int|
                0 <= i < events.len() ==> (r.1[i] is NackToDeadLetter <==> i % 10 == 0)
            &&& count_nacks(r.1) == (events.len() + 9) / 10
            &&& events.len() % 10 == 0 ==> count_nacks(r.1) == events.len() / 10
        }),
{
    assert((0nat % 10) as u64 == 0) by (nonlinear_arith);
    lemma_serving_run(DeliveryPolicy::PeriodicReject, events, 0);
    crate::policy::lemma_periodic_reject_pattern(events.len() as nat);
    lemma_nack_count_of_run(DeliveryPolicy::PeriodicReject, events);
}

/// The number of rejections the machine issues over one subscription equals
/// the count the policy prescribes for that many positions.
pub proof fn lemma_nack_count_of_run(policy: DeliveryPolicy, events: Seq<SessionEvent>)
    requires
        all_deliveries(events),
    ensures
        count_nacks(spec_run(policy, SessionState::Serving { phase: 0 }, events).1)
            == crate::policy::nack_count(policy, events.len() as nat),
    decreases events.len(),
{
    assert((0nat % 10) as u64 == 0) by (nonlinear_arith);
    let s0 = SessionState::Serving { phase: 0 };
    if events.len() == 0 {
    } else {
        let n = events.len();
        let head = events.drop_last();
        let tail = seq![events.last()];
        assert(events =~= head + tail);
        assert(all_deliveries(head));
        assert(all_deliveries(tail));
        lemma_nack_count_of_run(policy, head);
        lemma_run_append(policy, s0, head, tail);
        lemma_serving_run(policy, events, 0);
        lemma_serving_run(policy, head, 0);
        let sm = spec_run(policy, s0, head).0;
        let a1 = spec_run(policy, s0, head).1;
        let a2 = spec_run(policy, sm, tail).1;
        let all = spec_run(policy, s0, events).1;
        assert(all == spec_run(policy, s0, head + tail).1);
        assert(all =~= a1 + a2);
        lemma_serving_run(policy, tail, (n - 1) as nat);
        assert(sm == SessionState::Serving { phase: (((n - 1) as nat) % 10) as u64 });
        assert(a2.len() == 1);
        assert(a2[0] == decided_action(policy, (n - 1) as nat, events.last()));
        assert(all.drop_last() =~= a1);
        assert(all.last() == a2[0]);
    }
}

/// A consumer session: the policy it applies and where it stands.
pub struct ConsumerSession {
    /// The decision rule applied to every delivery.
    pub policy: DeliveryPolicy,
    /// The current state of the subscription attempt.
    pub state: SessionState,
}

impl ConsumerSession {
    /// The phase counter never leaves `0 .. REJECT_PERIOD`.
    pub open spec fn wf(self) -> bool {
        match self.state {
            SessionState::Serving { phase } => phase < REJECT_PERIOD,
            _ => true,
        }
    }

    /// A fresh session: nothing is connected yet, so the first owed action
    /// is to establish the whole chain.
    pub fn new(policy: DeliveryPolicy) -> (s: Self)
        ensures
            s.policy == policy,
            s.state == SessionState::Connecting,
            s.wf(),
    {
        ConsumerSession { policy, state: SessionState::Connecting }
    }

    /// What the driver must do in the current state.
    pub fn next_action(&self) -> (a: SessionAction)
        ensures
            a == required_action(self.state),
    {
        match self.state {
            SessionState::Connecting => SessionAction::EstablishChain,
            SessionState::Subscribing => SessionAction::StartConsume,
            SessionState::Serving { .. } => SessionAction::AwaitDelivery,
            SessionState::Restarting => SessionAction::CancelConsumer,
        }
    }

    /// Feed one event in; the returned action is what the driver must do
    /// next, exactly as [`spec_step`] prescribes.
    pub fn step(&mut self, event: SessionEvent) -> (a: SessionAction)
        requires
            old(self).wf(),
        ensures
            final(self).policy == old(self).policy,
            (final(self).state, a) == spec_step(old(self).policy, old(self).state, event),
            final(self).wf(),
    {
        match (self.state, event) {
            (SessionState::Connecting, SessionEvent::ChainEstablished) => {
                self.state = SessionState::Subscribing;
                SessionAction::StartConsume
            },
            (SessionState::Subscribing, SessionEvent::ConsumeStarted) => {
                self.state = SessionState::Serving { phase: 0 };
                SessionAction::AwaitDelivery
            },
            (SessionState::Serving { phase }, SessionEvent::Delivered { delivery }) => {
                let decision = self.policy.decide(phase);
                let p2: u64 = if phase + 1 == REJECT_PERIOD {
                    0
                } else {
                    phase + 1
                };
                self.state = SessionState::Serving { phase: p2 };
                if decision == Decision::NackToDeadLetter {
                    SessionAction::NackToDeadLetter { delivery_tag: delivery.delivery_tag }
                } else {
                    SessionAction::Ack { delivery_tag: delivery.delivery_tag }
                }
            },
            (SessionState::Serving { .. }, SessionEvent::StreamEnded) => {
                self.state = SessionState::Restarting;
                SessionAction::CancelConsumer
            },
            (SessionState::Restarting, SessionEvent::CancelFinished) => {
                self.state = SessionState::Connecting;
                SessionAction::EstablishChain
            },
            (_, _) => self.next_action(),
        }
    }
}

} // verus!
