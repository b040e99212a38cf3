//! The producer's publish step.
//!
//! Before each publish the connection and then the channel are checked and
//! repaired in that order (see [`crate::supervisor::repair_plan`]); the
//! publish itself always carries the persistent delivery mode and an empty
//! routing key. No publisher-confirm handshake is requested by default:
//! success means the broker accepted the frame, not that the message was
//! durably stored or routed — a deliberate reliability gap, made explicit
//! here by the `confirm_mode` flag.

use vstd::prelude::*;

verus! {

/// Milliseconds between two samples of the producer's fixed-interval timer.
pub const SAMPLE_INTERVAL_MS: u64 = 1000;

/// Everything one publish call fixes besides the payload.
pub struct PublishArgs {
    /// The exchange published to.
    pub exchange: String,
    /// Always empty: fanout routing.
    pub routing_key: String,
    /// Always set: the persistent delivery mode property.
    pub persistent: bool,
    /// Whether a publisher-confirm handshake is requested. Off by default:
    /// the publish contract is then "frame sent", not "durably accepted".
    pub confirm_mode: bool,
}

/// The arguments of a default publish against `exchange`: empty routing
/// key, persistent delivery mode, no confirms.
pub fn publish_args(exchange: &str) -> (a: PublishArgs)
    ensures
        a.exchange@ == exchange@,
        a.routing_key@ == Seq::<char>::empty(),
        a.persistent,
        !a.confirm_mode,
{
    PublishArgs {
        exchange: exchange.to_owned(),
        routing_key: String::new(),
        persistent: true,
        confirm_mode: false,
    }
}

} // verus!
