use systeminfo::policy::DeliveryPolicy;
use systeminfo::session::{
    ConsumerSession, Delivery, SessionAction, SessionEvent, SessionState,
};

fn delivered(tag: u64) -> SessionEvent {
    SessionEvent::Delivered {
        delivery: Delivery { payload: Vec::new(), delivery_tag: tag, redelivered: false },
    }
}

fn bring_to_serving(session: &mut ConsumerSession) {
    assert_eq!(session.next_action(), SessionAction::EstablishChain);
    assert_eq!(session.step(SessionEvent::ChainEstablished), SessionAction::StartConsume);
    assert_eq!(session.step(SessionEvent::ConsumeStarted), SessionAction::AwaitDelivery);
}

#[test]
fn fresh_session_starts_connecting() {
    let session = ConsumerSession::new(DeliveryPolicy::AckAll);
    assert_eq!(session.state, SessionState::Connecting);
    assert_eq!(session.next_action(), SessionAction::EstablishChain);
}

#[test]
fn twenty_one_deliveries_under_periodic_reject() {
    // One subscription of 21 deliveries: positions 0, 10, 20 are nacked
    // (routed to the dead-letter exchange), positions 1-9 and 11-19 acked.
    let mut session = ConsumerSession::new(DeliveryPolicy::PeriodicReject);
    bring_to_serving(&mut session);
    for pos in 0..21u64 {
        let tag = 1000 + pos;
        let action = session.step(delivered(tag));
        if pos % 10 == 0 {
            assert_eq!(action, SessionAction::NackToDeadLetter { delivery_tag: tag });
        } else {
            assert_eq!(action, SessionAction::Ack { delivery_tag: tag });
        }
    }
}

#[test]
fn ack_all_acknowledges_single_delivery() {
    let mut session = ConsumerSession::new(DeliveryPolicy::AckAll);
    bring_to_serving(&mut session);
    let action = session.step(delivered(7));
    assert_eq!(action, SessionAction::Ack { delivery_tag: 7 });
    // Nothing else is pending: the session just waits for the next message.
    assert_eq!(session.next_action(), SessionAction::AwaitDelivery);
}

#[test]
fn stream_end_rebuilds_whole_chain() {
    let mut session = ConsumerSession::new(DeliveryPolicy::AckAll);
    bring_to_serving(&mut session);
    assert_eq!(session.step(delivered(1)), SessionAction::Ack { delivery_tag: 1 });
    assert_eq!(session.step(SessionEvent::StreamEnded), SessionAction::CancelConsumer);
    assert_eq!(session.state, SessionState::Restarting);
    assert_eq!(session.step(SessionEvent::CancelFinished), SessionAction::EstablishChain);
    assert_eq!(session.state, SessionState::Connecting);
}

#[test]
fn rebuild_resets_periodic_reject_counter() {
    // Two consecutive subscriptions each see their own "every 10th"
    // boundary starting from position 0.
    let mut session = ConsumerSession::new(DeliveryPolicy::PeriodicReject);
    bring_to_serving(&mut session);
    // First subscription sees 13 deliveries: nacks at 0 and 10.
    for pos in 0..13u64 {
        let action = session.step(delivered(pos));
        let nack = matches!(action, SessionAction::NackToDeadLetter { .. });
        assert_eq!(nack, pos % 10 == 0);
    }
    // The stream dies; the chain is rebuilt from scratch.
    assert_eq!(session.step(SessionEvent::StreamEnded), SessionAction::CancelConsumer);
    assert_eq!(session.step(SessionEvent::CancelFinished), SessionAction::EstablishChain);
    assert_eq!(session.step(SessionEvent::ChainEstablished), SessionAction::StartConsume);
    assert_eq!(session.step(SessionEvent::ConsumeStarted), SessionAction::AwaitDelivery);
    assert_eq!(session.state, SessionState::Serving { phase: 0 });
    // The second subscription starts counting at 0 again.
    for pos in 0..21u64 {
        let tag = 500 + pos;
        let action = session.step(delivered(tag));
        if pos % 10 == 0 {
            assert_eq!(action, SessionAction::NackToDeadLetter { delivery_tag: tag });
        } else {
            assert_eq!(action, SessionAction::Ack { delivery_tag: tag });
        }
    }
}

#[test]
fn unexpected_event_restates_owed_action() {
    let mut session = ConsumerSession::new(DeliveryPolicy::AckAll);
    // A delivery while still connecting changes nothing.
    let action = session.step(delivered(3));
    assert_eq!(action, SessionAction::EstablishChain);
    assert_eq!(session.state, SessionState::Connecting);
}

#[test]
fn consumer_receives_exact_snapshot_payload() {
    // A published snapshot arrives as one delivery with the exact encoded
    // payload; AckAll acknowledges it and the queue stays empty.
    let text = "{\"tot_memory\":1000,\"used_memory\":400,\"tot_swap\":0,\"used_swap\":0,\"cpu_util\":[12.5,30.0]}";
    let mut session = ConsumerSession::new(DeliveryPolicy::AckAll);
    bring_to_serving(&mut session);
    let delivery = Delivery {
        payload: text.as_bytes().to_vec(),
        delivery_tag: 1,
        redelivered: false,
    };
    let action = session.step(SessionEvent::Delivered { delivery });
    assert_eq!(action, SessionAction::Ack { delivery_tag: 1 });
    assert_eq!(session.next_action(), SessionAction::AwaitDelivery);
}
