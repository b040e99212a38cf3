//! Connection and channel supervision.
//!
//! A connection supervisor owns the transport session: when the held handle
//! is missing or closed it opens a new one, retrying forever at a fixed
//! 2000 ms interval — this operation cannot fail, it can only block. A
//! channel supervisor opens a fresh logical channel unconditionally when
//! asked; a channel-open failure is not retried at this layer and is fatal
//! to the current chain. The supervisors here are decision machines: a
//! driver performs each returned action against the broker and reports the
//! outcome back.

use vstd::prelude::*;

verus! {

/// Milliseconds slept between two connection attempts. The retry is
/// unbounded: no backoff growth, no attempt ceiling.
pub const RETRY_DELAY_MS: u64 = 2000;

/// What the driver of a connection supervisor must do next.
#[derive(Clone, Copy, PartialEq, Eq, Structural, Debug)]
pub enum ConnectAction {
    /// Sleep this many milliseconds, then try again.
    SleepThenRetry { delay_ms: u64 },
    /// The attempt succeeded: register the default session observers and
    /// replace the previously held handle with the new one.
    UseConnection,
}

/// What the driver of a channel supervisor must do after a channel-open
/// attempt.
#[derive(Clone, Copy, PartialEq, Eq, Structural, Debug)]
pub enum ChannelAction {
    /// The open succeeded: register the default channel observers and
    /// replace the previously held channel with the new one.
    UseChannel,
    /// The open failed: unrecoverable at this layer; the caller must abandon
    /// the whole chain.
    FailChain,
}

/// Supervises the one transport session of a role instance.
#[derive(Clone, Copy, PartialEq, Eq, Structural, Debug)]
pub struct ConnectionSupervisor {
    /// Whether the supervisor holds an open connection, as far as it knows.
    pub connected: bool,
    /// Open attempts made in the current recovery episode (saturating).
    pub attempts: u64,
}

impl ConnectionSupervisor {
    /// A fresh supervisor holds nothing.
    pub fn new() -> (s: Self)
        ensures
            !s.connected,
            s.attempts == 0,
    {
        ConnectionSupervisor { connected: false, attempts: 0 }
    }

    /// Entry check of `ensure_open`: a new session must be opened exactly
    /// when no handle is held or the held one reports closed.
    pub fn must_open(&self, handle_exists: bool, handle_open: bool) -> (b: bool)
        ensures
            b == !(handle_exists && handle_open),
    {
        !(handle_exists && handle_open)
    }

    /// The handle was observed closed (or is about to be replaced): a new
    /// recovery episode begins.
    pub fn mark_disconnected(&mut self)
        ensures
            !final(self).connected,
            final(self).attempts == 0,
    {
        self.connected = false;
        self.attempts = 0;
    }

    /// Record the outcome of one open attempt. On failure the driver must
    /// sleep the fixed interval and try again; on success it must register
    /// the default observers and use the new handle. No error is ever
    /// surfaced: the loop converges or runs forever.
    pub fn on_attempt(&mut self, succeeded: bool) -> (a: ConnectAction)
        ensures
            final(self).connected == succeeded,
            final(self).attempts as int == if old(self).attempts == u64::MAX {
                u64::MAX as int
            } else {
                old(self).attempts + 1
            },
            a == if succeeded {
                ConnectAction::UseConnection
            } else {
                (ConnectAction::SleepThenRetry { delay_ms: RETRY_DELAY_MS })
            },
    {
        self.connected = succeeded;
        if self.attempts < u64::MAX {
            self.attempts = self.attempts + 1;
        }
        if succeeded {
            ConnectAction::UseConnection
        } else {
            ConnectAction::SleepThenRetry { delay_ms: RETRY_DELAY_MS }
        }
    }
}

/// Supervises the one logical channel of a role instance. Opening is
/// unconditional: the caller, not this supervisor, checks whether the held
/// channel is still open.
pub struct ChannelSupervisor {
    /// Whether the supervisor holds an open channel, as far as it knows.
    pub channel_open: bool,
}

impl ChannelSupervisor {
    /// A fresh supervisor holds nothing.
    pub fn new() -> (s: Self)
        ensures
            !s.channel_open,
    {
        ChannelSupervisor { channel_open: false }
    }

    /// Record the outcome of one channel-open call. Unlike the connection
    /// layer there is no retry here: a failure is fatal to the chain.
    pub fn on_open(&mut self, succeeded: bool) -> (a: ChannelAction)
        ensures
            final(self).channel_open == succeeded,
            a == if succeeded {
                ChannelAction::UseChannel
            } else {
                ChannelAction::FailChain
            },
    {
        self.channel_open = succeeded;
        if succeeded {
            ChannelAction::UseChannel
        } else {
            ChannelAction::FailChain
        }
    }

    /// A channel is bound to exactly one connection: replacing the
    /// connection invalidates it, whatever it reports itself.
    pub fn mark_invalid(&mut self)
        ensures
            !final(self).channel_open,
    {
        self.channel_open = false;
    }
}

/// Which parts of the connection/channel pair must be repaired before
/// either is used, in order: connection first, then channel. A replaced
/// connection always forces a new channel, so no caller can observe a
/// half-replaced pair as valid.
#[derive(Clone, Copy, PartialEq, Eq, Structural, Debug)]
pub struct RepairPlan {
    /// Open a new connection (retrying forever) before anything else.
    pub reconnect: bool,
    /// Open a new channel on the (possibly new) connection.
    pub reopen_channel: bool,
}

/// Decide the repair plan from the two health checks.
pub fn repair_plan(connection_open: bool, channel_open: bool) -> (p: RepairPlan)
    ensures
        p.reconnect == !connection_open,
        p.reopen_channel == (!connection_open || !channel_open),
{
    RepairPlan { reconnect: !connection_open, reopen_channel: !connection_open || !channel_open }
}

/// The retry loop driven over a sequence of attempt outcomes: whether a
/// connection was obtained before the outcomes ran out, and the total
/// milliseconds slept until then.
pub open spec fn retry_run(outcomes: Seq<bool>) -> (bool, nat)
    decreases outcomes.len(),
{
    if outcomes.len() == 0 {
        (false, 0)
    } else if outcomes[0] {
        (true, 0)
    } else {
        let rest = retry_run(outcomes.drop_first());
        (rest.0, (RETRY_DELAY_MS as nat) + rest.1)
    }
}

/// Law: whatever sequence of failures the broker injects, once an attempt
/// succeeds the supervisor holds an open connection, having slept exactly
/// one fixed interval per failed attempt before it — within
/// `RETRY_DELAY_MS × number_of_attempts` in all.
pub proof fn lemma_retry_converges(outcomes: Seq<bool>, k: int)
    requires
        0 <= k < outcomes.len(),
        outcomes[k],
        forall|j: int| 0 <= j < k ==> !outcomes[j],
    ensures
        retry_run(outcomes).0,
        retry_run(outcomes).1 == k * (RETRY_DELAY_MS as nat),
        retry_run(outcomes).1 < (k + 1) * (RETRY_DELAY_MS as nat),
    decreases k,
{
    if k == 0 {
    } else {
        assert(!outcomes[0]);
        let rest = outcomes.drop_first();
        assert(rest[k - 1]);
        lemma_retry_converges(rest, k - 1);
        assert((RETRY_DELAY_MS as nat) + (k - 1) * (RETRY_DELAY_MS as nat) == k * (
        RETRY_DELAY_MS as nat)) by (nonlinear_arith);
        assert(k * (RETRY_DELAY_MS as nat) < (k + 1) * (RETRY_DELAY_MS as nat))
            by (nonlinear_arith)
            requires
                k >= 0,
        ;
    }
}

} // verus!
