//! Queue and exchange topology for the consumer role.
//!
//! Every snapshot is published to one fixed fanout exchange. A consumer
//! declares a private queue — auto-delete, non-durable, named after a fresh
//! random token — binds it to that exchange with an empty routing key, and
//! may attach a dead-letter exchange so that rejected messages are captured
//! there.

use vstd::prelude::*;
use vstd::string::StringExecFns;

verus! {

/// The fanout exchange all snapshots are published to.
pub open spec fn spec_exchange_name() -> Seq<char> {
    "systemmonitor"@
}

/// Exchange the broker routes rejected messages to, when a queue declares
/// it. It must pre-exist as a durable fanout exchange with its own queue;
/// this core never creates it.
pub open spec fn spec_dead_letter_exchange() -> Seq<char> {
    "all.deadletter"@
}

/// Every consumer queue name starts with this label.
pub open spec fn spec_queue_prefix() -> Seq<char> {
    "c_systemmonitor_"@
}

/// The fanout exchange all snapshots are published to.
pub fn exchange_name() -> (s: &'static str)
    ensures
        s@ == spec_exchange_name(),
{
    "systemmonitor"
}

/// The dead-letter exchange rejected messages are routed to.
pub fn dead_letter_exchange() -> (s: &'static str)
    ensures
        s@ == spec_dead_letter_exchange(),
{
    "all.deadletter"
}

/// A character a random token may contain: lowercase hex or a hyphen.
pub open spec fn is_token_char(c: char) -> bool {
    ('0' <= c && c <= '9') || ('a' <= c && c <= 'f') || c == '-'
}

/// A well-shaped token: 36 characters of lowercase hex and hyphens.
pub open spec fn is_token(t: Seq<char>) -> bool {
    t.len() == 36 && forall|i: int| 0 <= i < t.len() ==> is_token_char(#[trigger] t[i])
}

/// A well-shaped consumer queue name: the fixed prefix followed by a token.
pub open spec fn is_queue_name(q: Seq<char>) -> bool {
    q.len() == spec_queue_prefix().len() + 36 && q.subrange(
        0,
        spec_queue_prefix().len() as int,
    ) == spec_queue_prefix() && is_token(q.subrange(spec_queue_prefix().len() as int, q.len() as int))
}

/// Relies on `uuid::Uuid::new_v4` and `Uuid::as_hyphenated`: a version-4
/// identifier drawn from the process's random source and rendered in
/// hyphenated form — 36 ASCII characters, lowercase hex digits with hyphens
/// at positions 8, 13, 18 and 23. The draw is random, so nothing relates
/// one call's result to another's; only the shape of the text is promised.
#[verifier::external_body]
fn random_token() -> (t: String)
    ensures
        is_token(t@),
{
    uuid::Uuid::new_v4().as_hyphenated().to_string()
}

/// Build the queue name a token determines: the fixed prefix, then the
/// token.
pub fn queue_name_for(token: &str) -> (q: String)
    ensures
        q@ == spec_queue_prefix() + token@,
{
    let mut q = String::from_str("c_systemmonitor_");
    q.append(token);
    q
}

/// Draw a fresh process-unique queue name. Distinct tokens give distinct
/// names ([`lemma_queue_name_injective`]); the tokens themselves are random
/// enough that two processes collide only with negligible probability.
pub fn fresh_queue_name() -> (q: String)
    ensures
        is_queue_name(q@),
{
    let token = random_token();
    let q = queue_name_for(token.as_str());
    proof {
        assert(q@.subrange(0, spec_queue_prefix().len() as int) =~= spec_queue_prefix());
        assert(q@.subrange(spec_queue_prefix().len() as int, q@.len() as int) =~= token@);
    }
    q
}

/// The consumer tag a subscription announces itself under: the queue name
/// followed by a fixed suffix.
pub fn consumer_tag_for(queue: &str) -> (t: String)
    ensures
        t@ == queue@ + " sub_monitor"@,
{
    let mut t = queue.to_owned();
    t.append(" sub_monitor");
    t
}

/// Law: queue names built from distinct tokens are distinct — the fixed
/// prefix cannot mask a difference between tokens.
pub proof fn lemma_queue_name_injective(t1: Seq<char>, t2: Seq<char>)
    requires
        t1 != t2,
    ensures
        spec_queue_prefix() + t1 != spec_queue_prefix() + t2,
{
    let p = spec_queue_prefix();
    if p + t1 == p + t2 {
        assert((p + t1).len() == (p + t2).len());
        assert(t1.len() == t2.len());
        assert forall|i: int| 0 <= i < t1.len() implies t1[i] == t2[i] by {
            assert((p + t1)[p.len() + i] == t1[i]);
            assert((p + t2)[p.len() + i] == t2[i]);
        }
        assert(t1 =~= t2);
    }
}

/// One queue declaration plus its binding, as a consumer subscription needs
/// them. Fanout semantics: the routing key stays empty, so every message
/// published to the exchange reaches every bound queue.
pub struct QueueBinding {
    /// The process-unique queue name.
    pub queue_name: String,
    /// The exchange the queue is bound to.
    pub exchange: String,
    /// Always empty: fanout routing.
    pub routing_key: String,
    /// Never durable: the queue holds nothing across broker restarts.
    pub durable: bool,
    /// Always auto-delete: the broker removes the queue once its last
    /// consumer detaches.
    pub auto_delete: bool,
    /// When set, rejected messages are routed to this exchange via the
    /// queue's dead-letter argument.
    pub dead_letter_exchange: Option<String>,
}

impl QueueBinding {
    /// What every consumer binding satisfies.
    pub open spec fn wf(self) -> bool {
        &&& self.routing_key@ == Seq::<char>::empty()
        &&& self.auto_delete
        &&& !self.durable
    }

    /// A consumer binding: auto-delete, non-durable, empty routing key,
    /// optionally dead-lettering rejected messages.
    pub fn new(queue_name: String, exchange: String, dead_letter_exchange: Option<String>) -> (b:
        Self)
        ensures
            b.wf(),
            b.queue_name == queue_name,
            b.exchange == exchange,
            b.dead_letter_exchange == dead_letter_exchange,
    {
        QueueBinding {
            queue_name,
            exchange,
            routing_key: String::new(),
            durable: false,
            auto_delete: true,
            dead_letter_exchange,
        }
    }

    /// Declaration and binding are two independent round trips: after the
    /// declare call the channel must be checked again, and reopened before
    /// the bind call exactly when it closed in between.
    pub fn reopen_before_bind(&self, channel_open: bool) -> (b: bool)
        ensures
            b == !channel_open,
    {
        !channel_open
    }
}

} // verus!
