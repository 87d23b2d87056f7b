//! The shutdown fan-in coordinator: many independent producers each send
//! one unit token over a channel; a single consumer awaits the first token
//! and then runs one teardown sequence. This module is the protocol's
//! state machine — the channel around it only carries the tokens.

use vstd::prelude::*;

verus! {

/// The coordinator's state: how many tokens are sent but not yet
/// consumed, whether every producer is gone (a closed channel counts as a
/// signal), and how many teardown sequences the consumer has started.
#[derive(Debug, Clone, Copy, PartialEq, Eq, Structural)]
pub struct ShutdownCoordinator {
    pub pending: u64,
    pub closed: bool,
    pub teardowns: u64,
}

/// The state at process start: nothing sent, nothing consumed.
pub open spec fn coordinator_init() -> ShutdownCoordinator {
    ShutdownCoordinator { pending: 0, closed: false, teardowns: 0 }
}

/// Whether the consumer's await would complete: a token is pending or the
/// channel is closed (an exhausted channel reads as a signal).
pub open spec fn signal_available(c: ShutdownCoordinator) -> bool {
    c.pending > 0 || c.closed
}

/// The state after one producer sends a token. Sends never block and
/// never fail; an already saturated counter stays put.
pub open spec fn send_spec(c: ShutdownCoordinator) -> ShutdownCoordinator {
    ShutdownCoordinator {
        pending: if c.pending < u64::MAX {
            (c.pending + 1) as u64
        } else {
            c.pending
        },
        ..c
    }
}

/// The state after `n` sends from any mix of producers.
pub open spec fn after_sends(c: ShutdownCoordinator, n: nat) -> ShutdownCoordinator
    decreases n,
{
    if n == 0 {
        c
    } else {
        send_spec(after_sends(c, (n - 1) as nat))
    }
}

/// The state after the consumer's single read: with a signal available it
/// consumes one token and starts one teardown; with none it is unchanged
/// (the consumer stays suspended).
pub open spec fn consume_spec(c: ShutdownCoordinator) -> ShutdownCoordinator {
    if signal_available(c) {
        ShutdownCoordinator {
            pending: if c.pending > 0 {
                (c.pending - 1) as u64
            } else {
                0
            },
            closed: c.closed,
            teardowns: (c.teardowns + 1) as u64,
        }
    } else {
        c
    }
}

impl ShutdownCoordinator {
    /// A fresh coordinator with no signal outstanding.
    pub fn new() -> (c: Self)
        ensures
            c == coordinator_init(),
    {
        ShutdownCoordinator { pending: 0, closed: false, teardowns: 0 }
    }

    /// One producer reports termination of its task. Never blocks, never
    /// fails: a producer's send is best effort and fire-and-forget.
    pub fn send(&mut self)
        ensures
            *final(self) == send_spec(*old(self)),
            signal_available(*final(self)),
    {
        if self.pending < u64::MAX {
            self.pending = self.pending + 1;
        }
    }

    /// Every producer is gone. A closed channel reads as a signal, so a
    /// consumer can never be stranded by producers that died silently.
    pub fn close(&mut self)
        ensures
            *final(self) == (ShutdownCoordinator { closed: true, ..*old(self) }),
            signal_available(*final(self)),
    {
        self.closed = true;
    }

    /// The consumer's single read. Returns whether a signal was available;
    /// when it was, exactly one token is consumed and one teardown
    /// sequence begins.
    pub fn try_consume(&mut self) -> (got: bool)
        requires
            old(self).teardowns < u64::MAX,
        ensures
            got == signal_available(*old(self)),
            *final(self) == consume_spec(*old(self)),
    {
        if self.pending > 0 {
            self.pending = self.pending - 1;
            self.teardowns = self.teardowns + 1;
            true
        } else if self.closed {
            self.teardowns = self.teardowns + 1;
            true
        } else {
            false
        }
    }
}

/// Sends touch only the pending-token count.
proof fn lemma_sends_touch_only_pending(c: ShutdownCoordinator, n: nat)
    ensures
        after_sends(c, n).teardowns == c.teardowns,
        after_sends(c, n).closed == c.closed,
    decreases n,
{
    if n > 0 {
        lemma_sends_touch_only_pending(c, (n - 1) as nat);
    }
}

/// Law: first signal wins. After one or more tokens from any mix of
/// producers, the consumer's single read observes a signal and starts
/// exactly one teardown sequence.
pub proof fn lemma_first_signal_wins(n: nat)
    requires
        n >= 1,
    ensures
        signal_available(after_sends(coordinator_init(), n)),
        consume_spec(after_sends(coordinator_init(), n)).teardowns == 1,
{
    assert(after_sends(coordinator_init(), n) == send_spec(
        after_sends(coordinator_init(), (n - 1) as nat),
    ));
    lemma_sends_touch_only_pending(coordinator_init(), n);
}

/// Law: no spurious shutdown. With no token sent and the channel open,
/// the consumer observes nothing and no teardown begins.
pub proof fn lemma_no_spurious_teardown()
    ensures
        !signal_available(after_sends(coordinator_init(), 0)),
        consume_spec(coordinator_init()) == coordinator_init(),
{
}

/// Law: a closed channel reads as a signal, so the consumer completes
/// even if every producer vanished without sending.
pub proof fn lemma_closed_channel_reads_as_signal(c: ShutdownCoordinator)
    requires
        c.closed,
        c.teardowns < u64::MAX,
    ensures
        signal_available(c),
        consume_spec(c).teardowns == c.teardowns + 1,
{
}

} // verus!
