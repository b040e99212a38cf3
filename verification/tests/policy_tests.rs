use systeminfo::policy::{Decision, DeliveryPolicy, REJECT_PERIOD};

#[test]
fn ack_all_acknowledges_everything() {
    for pos in 0..50u64 {
        assert_eq!(DeliveryPolicy::AckAll.decide(pos), Decision::Ack);
    }
}

#[test]
fn periodic_reject_rejects_every_tenth() {
    for pos in 0..50u64 {
        let expected = if pos % 10 == 0 {
            Decision::NackToDeadLetter
        } else {
            Decision::Ack
        };
        assert_eq!(DeliveryPolicy::PeriodicReject.decide(pos), expected);
    }
}

#[test]
fn reject_period_is_ten() {
    assert_eq!(REJECT_PERIOD, 10);
}

#[test]
fn periodic_reject_counts_over_twenty_one() {
    // 21 deliveries: positions 0, 10, 20 are rejected, 18 are acknowledged.
    let mut nacks = 0;
    let mut acks = 0;
    for pos in 0..21u64 {
        match DeliveryPolicy::PeriodicReject.decide(pos) {
            Decision::NackToDeadLetter => nacks += 1,
            Decision::Ack => acks += 1,
        }
    }
    assert_eq!(nacks, 3);
    assert_eq!(acks, 18);
}
