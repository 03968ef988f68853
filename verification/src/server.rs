//! What the accepting side of the proxy decides: whether a new connection is
//! admitted under the limit on concurrent clients, and what the counters say
//! afterwards.

use crate::config::Config;
use crate::stats::{max_nanos, nanos_in, Stats};
use std::time::Duration;
use vstd::prelude::*;

verus! {

/// What happens at the accepting side: a connection arrives, or one that was
/// admitted ends.
pub enum GateEvent {
    Accept,
    Close,
}

/// The number of admitted connections after one more event. A connection is
/// admitted while fewer than `capacity` are active.
pub open spec fn active_step(capacity: nat, active: nat, event: GateEvent) -> nat {
    match event {
        GateEvent::Accept => if active < capacity {
            active + 1
        } else {
            active
        },
        GateEvent::Close => if active > 0 {
            (active - 1) as nat
        } else {
            0
        },
    }
}

/// The number of admitted connections after a run of events, from none.
pub open spec fn active_after(capacity: nat, events: Seq<GateEvent>) -> nat
    decreases events.len(),
{
    if events.len() == 0 {
        0
    } else {
        active_step(capacity, active_after(capacity, events.drop_last()), events.last())
    }
}

/// Whatever arrives and ends, never more than `capacity` connections are
/// active at once.
pub proof fn lemma_admission_cap(capacity: nat, events: Seq<GateEvent>)
    ensures
        active_after(capacity, events) <= capacity,
    decreases events.len(),
{
    if events.len() > 0 {
        lemma_admission_cap(capacity, events.drop_last());
    }
}

/// Milliseconds to wait after a failed accept before the next one.
pub const ACCEPT_RETRY_MILLIS: u64 = 100;

/// Seconds that connections in flight are given after a shutdown signal.
pub const SHUTDOWN_GRACE_SECS: u64 = 5;

/// The state that the accept loops and the connection handlers share: the
/// limit on concurrent clients and the counters.
#[derive(Debug)]
pub struct ProxyServer {
    max_clients: usize,
    stats: Stats,
    shutting_down: bool,
}

impl ProxyServer {
    #[verifier::type_invariant]
    spec fn consistent(self) -> bool {
        &&& self.stats.active_connections <= self.max_clients
        &&& self.stats.connections_opened == self.stats.connections_closed
            + self.stats.active_connections
    }

    /// The most connections that may be active at once.
    pub closed spec fn capacity(self) -> nat {
        self.max_clients as nat
    }

    /// The connections that are active.
    pub closed spec fn active(self) -> nat {
        self.stats.active_connections as nat
    }

    /// The counters.
    pub closed spec fn stats(self) -> Stats {
        self.stats
    }

    /// Whether the signal to shut down has come.
    pub closed spec fn shutting_down(self) -> bool {
        self.shutting_down
    }

    /// A server for a configuration, with fresh counters and no connection.
    pub fn new(config: &Config) -> (server: ProxyServer)
        ensures
            server.capacity() == config@.max_clients,
            server.active() == 0,
            server.stats().is_fresh(),
            !server.shutting_down(),
    {
        ProxyServer { max_clients: config.max_clients, stats: Stats::new(), shutting_down: false }
    }

    /// Decides on a connection that has arrived: it is admitted if fewer
    /// connections than the limit are active, and is then counted as opened
    /// and active. Otherwise nothing changes and it is to be dropped.
    pub fn try_admit(&mut self) -> (admitted: bool)
        requires
            old(self).stats().connections_opened < u64::MAX,
        ensures
            admitted == (old(self).active() < old(self).capacity()),
            final(self).active() == active_step(
                old(self).capacity(),
                old(self).active(),
                GateEvent::Accept,
            ),
            final(self).active() <= final(self).capacity(),
            final(self).capacity() == old(self).capacity(),
            final(self).shutting_down() == old(self).shutting_down(),
            admitted ==> final(self).stats() == (Stats {
                connections_opened: (old(self).stats().connections_opened + 1) as u64,
                active_connections: (old(self).stats().active_connections + 1) as u64,
                ..old(self).stats()
            }),
            !admitted ==> final(self).stats() == old(self).stats(),
    {
        proof {
            use_type_invariant(&*self);
        }
        if self.stats.active_connections >= self.max_clients as u64 {
            return false;
        }
        let mut stats = self.stats.clone();
        stats.connections_opened = stats.connections_opened + 1;
        stats.active_connections = stats.active_connections + 1;
        self.stats = stats;
        true
    }

    /// Takes note that an admitted connection has ended after `elapsed`.
    pub fn connection_closed(&mut self, elapsed: Duration)
        requires
            old(self).active() > 0,
        ensures
            final(self).active() == active_step(
                old(self).capacity(),
                old(self).active(),
                GateEvent::Close,
            ),
            final(self).capacity() == old(self).capacity(),
            final(self).shutting_down() == old(self).shutting_down(),
            final(self).stats() == (Stats {
                connections_closed: (old(self).stats().connections_closed + 1) as u64,
                active_connections: (old(self).stats().active_connections - 1) as u64,
                total_connection_time: final(self).stats().total_connection_time,
                ..old(self).stats()
            }),
            nanos_in(final(self).stats().total_connection_time) == if nanos_in(
                old(self).stats().total_connection_time,
            ) + nanos_in(elapsed) <= max_nanos() {
                nanos_in(old(self).stats().total_connection_time) + nanos_in(elapsed)
            } else {
                max_nanos()
            },
    {
        proof {
            use_type_invariant(&*self);
        }
        let mut stats = self.stats.clone();
        stats.active_connections = stats.active_connections - 1;
        stats.connections_closed = stats.connections_closed + 1;
        stats.add_connection_time(elapsed);
        self.stats = stats;
    }

    /// Counts a request that was read in full.
    pub fn record_request(&mut self)
        requires
            old(self).stats().requests_processed < u64::MAX,
        ensures
            final(self).stats() == (Stats {
                requests_processed: (old(self).stats().requests_processed + 1) as u64,
                ..old(self).stats()
            }),
            final(self).capacity() == old(self).capacity(),
            final(self).active() == old(self).active(),
            final(self).shutting_down() == old(self).shutting_down(),
    {
        proof {
            use_type_invariant(&*self);
        }
        let mut stats = self.stats.clone();
        stats.requests_processed = stats.requests_processed + 1;
        self.stats = stats;
    }

    /// Adds the bytes that a relay has moved to the bytes transferred.
    pub fn record_transfer(&mut self, bytes: u64)
        requires
            old(self).stats().bytes_transferred + bytes <= u64::MAX,
        ensures
            final(self).stats() == (Stats {
                bytes_transferred: (old(self).stats().bytes_transferred + bytes) as u64,
                ..old(self).stats()
            }),
            final(self).capacity() == old(self).capacity(),
            final(self).active() == old(self).active(),
            final(self).shutting_down() == old(self).shutting_down(),
    {
        proof {
            use_type_invariant(&*self);
        }
        let mut stats = self.stats.clone();
        stats.bytes_transferred = stats.bytes_transferred + bytes;
        self.stats = stats;
    }

    /// Takes note of the signal to shut down.
    pub fn shutdown(&mut self)
        ensures
            final(self).shutting_down(),
            final(self).stats() == old(self).stats(),
            final(self).capacity() == old(self).capacity(),
            final(self).active() == old(self).active(),
    {
        proof {
            use_type_invariant(&*self);
        }
        self.shutting_down = true;
    }

    /// Whether the signal to shut down has come.
    pub fn is_shutting_down(&self) -> (r: bool)
        ensures
            r == self.shutting_down(),
    {
        self.shutting_down
    }

    /// A copy of the counters.
    pub fn get_stats(&self) -> (stats: Stats)
        ensures
            stats == self.stats(),
            stats.active_connections <= self.capacity(),
            stats.connections_opened == stats.connections_closed + stats.active_connections,
    {
        proof {
            use_type_invariant(self);
        }
        self.stats.clone()
    }

    /// The number of connections that are active.
    pub fn active_connections(&self) -> (n: u64)
        ensures
            n == self.active(),
            n <= self.capacity(),
    {
        proof {
            use_type_invariant(self);
        }
        self.stats.active_connections
    }
}

/// Whether the listeners are ready: one was wanted at least, and every one
/// that was wanted is bound.
pub fn listeners_ready(wanted: usize, bound: usize) -> (r: bool)
    ensures
        r == (wanted > 0 && bound == wanted),
{
    wanted > 0 && bound == wanted
}

} // verus!
