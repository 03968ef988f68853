//! The counters of the proxy, and durations and byte counts for display.

use crate::text::{digits_of, push_number};
use crate::utils::{format_scaled, scaled_text};
use std::time::Duration;
use vstd::prelude::*;
use vstd::string::StringExecFns;

verus! {

/// The nanoseconds that a `Duration` holds in all.
pub uninterp spec fn nanos_in(d: Duration) -> nat;

/// The nanoseconds in the longest `Duration`: `u64::MAX` seconds and one
/// nanosecond short of a further second.
pub open spec fn max_nanos() -> nat {
    0xffff_ffff_ffff_ffff * 1_000_000_000 + 999_999_999
}

/// `Duration::from_nanos`: a duration of that many nanoseconds.
#[verifier::external_body]
fn duration_from_nanos(n: u64) -> (d: Duration)
    ensures
        nanos_in(d) == n,
{
    Duration::from_nanos(n)
}

/// `Duration::as_nanos`: the nanoseconds in all, which are no more than the
/// longest duration holds.
#[verifier::external_body]
fn duration_nanos(d: &Duration) -> (n: u128)
    ensures
        n == nanos_in(*d),
        n <= max_nanos(),
{
    d.as_nanos()
}

/// `Duration::new`: whole seconds and nanoseconds under a second.
#[verifier::external_body]
fn duration_of(secs: u64, nanos: u32) -> (d: Duration)
    requires
        nanos < 1_000_000_000,
    ensures
        nanos_in(d) == secs * 1_000_000_000 + nanos,
{
    Duration::new(secs, nanos)
}

/// `Duration::saturating_add`: the sum, or the longest duration where the
/// sum is longer.
#[verifier::external_body]
fn duration_sum(a: Duration, b: Duration) -> (d: Duration)
    ensures
        nanos_in(d) == if nanos_in(a) + nanos_in(b) <= max_nanos() {
            nanos_in(a) + nanos_in(b)
        } else {
            max_nanos()
        },
{
    a.saturating_add(b)
}

/// A moment in UTC: seconds since 1970, and nanoseconds into the second.
#[derive(Debug, Clone, Copy, PartialEq, Eq, Structural)]
pub struct Timestamp {
    pub secs: i64,
    pub nanos: u32,
}

/// `Utc::now` of the `chrono` crate, as its `timestamp` and
/// `timestamp_subsec_nanos`: the moment of the call, of which nothing is
/// known. Like `Utc::now`, it panics where the system clock stands before 1970.
#[verifier::external_body]
fn utc_now() -> (now: Timestamp) {
    let now = chrono::Utc::now();
    Timestamp { secs: now.timestamp(), nanos: now.timestamp_subsec_nanos() }
}

/// The nanoseconds from `start` to `now`: none where `now` is not later, and
/// no more than the longest duration holds.
pub open spec fn elapsed_nanos(start: Timestamp, now: Timestamp) -> nat {
    let d = (now.secs - start.secs) * 1_000_000_000 + (now.nanos - start.nanos);
    if d <= 0 {
        0
    } else if d > max_nanos() {
        max_nanos()
    } else {
        d as nat
    }
}

/// The time from `start` to `now`.
pub fn span_between(start: Timestamp, now: Timestamp) -> (d: Duration)
    ensures
        nanos_in(d) == elapsed_nanos(start, now),
{
    let diff: i128 = (now.secs as i128 - start.secs as i128) * 1_000_000_000 + (now.nanos as i128
        - start.nanos as i128);
    if diff <= 0 {
        return duration_from_nanos(0);
    }
    let secs: i128 = diff / 1_000_000_000;
    let nanos: i128 = diff % 1_000_000_000;
    if secs > u64::MAX as i128 {
        duration_of(u64::MAX, 999_999_999)
    } else {
        duration_of(secs as u64, nanos as u32)
    }
}

/// The counters of the proxy: connections, requests, bytes, authentication,
/// and the times that go with them.
#[derive(Debug)]
pub struct Stats {
    pub connections_opened: u64,
    pub connections_closed: u64,
    pub active_connections: u64,
    pub total_connection_time: Duration,
    pub requests_processed: u64,
    pub requests_denied: u64,
    pub requests_failed: u64,
    pub bytes_transferred: u64,
    pub bytes_sent: u64,
    pub bytes_received: u64,
    pub average_request_time: Duration,
    pub peak_connections: u64,
    pub requests_filtered: u64,
    pub auth_attempts: u64,
    pub auth_failures: u64,
    pub start_time: Timestamp,
    pub uptime: Duration,
}

impl Clone for Stats {
    fn clone(&self) -> (copy: Stats)
        ensures
            copy == *self,
    {
        Stats {
            connections_opened: self.connections_opened,
            connections_closed: self.connections_closed,
            active_connections: self.active_connections,
            total_connection_time: self.total_connection_time,
            requests_processed: self.requests_processed,
            requests_denied: self.requests_denied,
            requests_failed: self.requests_failed,
            bytes_transferred: self.bytes_transferred,
            bytes_sent: self.bytes_sent,
            bytes_received: self.bytes_received,
            average_request_time: self.average_request_time,
            peak_connections: self.peak_connections,
            requests_filtered: self.requests_filtered,
            auth_attempts: self.auth_attempts,
            auth_failures: self.auth_failures,
            start_time: self.start_time,
            uptime: self.uptime,
        }
    }
}

impl Stats {
    /// Whether every counter is zero and every duration empty.
    pub open spec fn is_fresh(self) -> bool {
        &&& self.connections_opened == 0
        &&& self.connections_closed == 0
        &&& self.active_connections == 0
        &&& nanos_in(self.total_connection_time) == 0
        &&& self.requests_processed == 0
        &&& self.requests_denied == 0
        &&& self.requests_failed == 0
        &&& self.bytes_transferred == 0
        &&& self.bytes_sent == 0
        &&& self.bytes_received == 0
        &&& nanos_in(self.average_request_time) == 0
        &&& self.peak_connections == 0
        &&& self.requests_filtered == 0
        &&& self.auth_attempts == 0
        &&& self.auth_failures == 0
        &&& nanos_in(self.uptime) == 0
    }

    /// Fresh counters that start at the given moment.
    pub fn starting_at(start_time: Timestamp) -> (stats: Stats)
        ensures
            stats.is_fresh(),
            stats.start_time == start_time,
    {
        Stats {
            connections_opened: 0,
            connections_closed: 0,
            active_connections: 0,
            total_connection_time: duration_from_nanos(0),
            requests_processed: 0,
            requests_denied: 0,
            requests_failed: 0,
            bytes_transferred: 0,
            bytes_sent: 0,
            bytes_received: 0,
            average_request_time: duration_from_nanos(0),
            peak_connections: 0,
            requests_filtered: 0,
            auth_attempts: 0,
            auth_failures: 0,
            start_time,
            uptime: duration_from_nanos(0),
        }
    }

    /// Fresh counters that start now.
    pub fn new() -> (stats: Stats)
        ensures
            stats.is_fresh(),
    {
        Stats::starting_at(utc_now())
    }

    /// The same counters with another uptime.
    pub open spec fn with_uptime(self, uptime: Duration) -> Stats {
        Stats { uptime, ..self }
    }

    /// Sets the uptime to the time from the start to `now`.
    pub fn update_uptime_at(&mut self, now: Timestamp)
        ensures
            *final(self) == old(self).with_uptime(final(self).uptime),
            nanos_in(final(self).uptime) == elapsed_nanos(old(self).start_time, now),
    {
        self.uptime = span_between(self.start_time, now);
    }

    /// Sets the uptime to the time since the start.
    pub fn update_uptime(&mut self)
        ensures
            *final(self) == old(self).with_uptime(final(self).uptime),
            exists|now: Timestamp|
                nanos_in(final(self).uptime) == elapsed_nanos(old(self).start_time, now),
    {
        let now = utc_now();
        self.update_uptime_at(now);
    }

    /// Raises the peak to the number of active connections, where that is higher.
    pub fn update_peak_connections(&mut self)
        ensures
            *final(self) == (Stats {
                peak_connections: if old(self).active_connections > old(self).peak_connections {
                    old(self).active_connections
                } else {
                    old(self).peak_connections
                },
                ..*old(self)
            }),
    {
        if self.active_connections > self.peak_connections {
            self.peak_connections = self.active_connections;
        }
    }

    /// The same counters with another average request time.
    pub open spec fn with_average(self, average: Duration) -> Stats {
        Stats { average_request_time: average, ..self }
    }

    /// Sets the average request time to the total connection time over the
    /// requests processed, in whole nanoseconds, of which the 64 lowest bits
    /// are kept. Without requests it stays as it is.
    pub fn calculate_average_request_time(&mut self)
        ensures
            old(self).requests_processed == 0 ==> *final(self) == *old(self),
            old(self).requests_processed > 0 ==> *final(self) == old(self).with_average(
                final(self).average_request_time,
            ) && nanos_in(final(self).average_request_time) == (nanos_in(
                old(self).total_connection_time,
            ) / old(self).requests_processed as nat) % 0x1_0000_0000_0000_0000,
    {
        if self.requests_processed > 0 {
            let total = duration_nanos(&self.total_connection_time);
            let average = total / self.requests_processed as u128;
            self.average_request_time = duration_from_nanos(
                (average % 0x1_0000_0000_0000_0000) as u64,
            );
        }
    }

    /// Adds `elapsed` to the total connection time, which stops at the
    /// longest duration.
    pub fn add_connection_time(&mut self, elapsed: Duration)
        ensures
            *final(self) == (Stats {
                total_connection_time: final(self).total_connection_time,
                ..*old(self)
            }),
            nanos_in(final(self).total_connection_time) == if nanos_in(
                old(self).total_connection_time,
            ) + nanos_in(elapsed) <= max_nanos() {
                nanos_in(old(self).total_connection_time) + nanos_in(elapsed)
            } else {
                max_nanos()
            },
    {
        self.total_connection_time = duration_sum(self.total_connection_time, elapsed);
    }
}

impl Default for Stats {
    fn default() -> (stats: Stats)
        ensures
            stats.is_fresh(),
    {
        Stats::new()
    }
}

/// A time in seconds for display: days, hours, minutes and seconds, from the
/// largest unit that is not zero on.
pub open spec fn duration_text(total: nat) -> Seq<char> {
    let days = total / 86400;
    let hours = (total % 86400) / 3600;
    let minutes = (total % 3600) / 60;
    let seconds = total % 60;
    if days > 0 {
        digits_of(days) + "d "@ + digits_of(hours) + "h "@ + digits_of(minutes) + "m "@
            + digits_of(seconds) + "s"@
    } else if hours > 0 {
        digits_of(hours) + "h "@ + digits_of(minutes) + "m "@ + digits_of(seconds) + "s"@
    } else if minutes > 0 {
        digits_of(minutes) + "m "@ + digits_of(seconds) + "s"@
    } else {
        digits_of(seconds) + "s"@
    }
}

/// A time in whole seconds for display.
pub fn format_seconds(total: u64) -> (r: String)
    ensures
        r@ == duration_text(total as nat),
{
    let days = total / 86400;
    let hours = (total % 86400) / 3600;
    let minutes = (total % 3600) / 60;
    let seconds = total % 60;
    let mut r = String::new();
    if days > 0 {
        push_number(&mut r, days);
        r.append("d ");
    }
    if days > 0 || hours > 0 {
        push_number(&mut r, hours);
        r.append("h ");
    }
    if days > 0 || hours > 0 || minutes > 0 {
        push_number(&mut r, minutes);
        r.append("m ");
    }
    push_number(&mut r, seconds);
    r.append("s");
    assert(r@ =~= duration_text(total as nat));
    r
}

/// A duration for display, in its whole seconds.
pub fn format_duration(duration: &Duration) -> (r: String)
    ensures
        r@ == duration_text(nanos_in(*duration) / 1_000_000_000),
{
    let nanos = duration_nanos(duration);
    format_seconds((nanos / 1_000_000_000) as u64)
}

/// A byte count for display, in units up to PB.
pub fn format_bytes(bytes: u64) -> (r: String)
    ensures
        r@ == scaled_text(bytes as nat, 5),
{
    format_scaled(bytes, 5)
}

} // verus!
