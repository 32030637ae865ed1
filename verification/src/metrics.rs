//! Server-wide counters: uptime, totals of messages and connections.
use vstd::prelude::*;

verus! {

/// Aggregate counters of one server process.
pub struct ServerMetrics {
    pub start_time: u64,
    pub total_messages: u64,
    pub total_connections: u64,
}

impl ServerMetrics {
    /// Fresh counters, started at the given clock reading.
    pub fn new(now: u64) -> (m: ServerMetrics)
        ensures
            m.start_time == now,
            m.total_messages == 0,
            m.total_connections == 0,
    {
        ServerMetrics { start_time: now, total_messages: 0, total_connections: 0 }
    }

    /// Seconds since start; 0 if the clock ran backwards.
    pub fn uptime_secs(&self, now: u64) -> (r: u64)
        ensures
            r == if now >= self.start_time {
                now - self.start_time
            } else {
                0
            },
    {
        if now >= self.start_time {
            now - self.start_time
        } else {
            0
        }
    }

    /// Counts one more handled message; the counter wraps at its limit.
    pub fn increment_messages(&mut self)
        ensures
            old(self).total_messages < u64::MAX ==> final(self).total_messages == old(
                self,
            ).total_messages + 1,
            old(self).total_messages == u64::MAX ==> final(self).total_messages == 0,
            final(self).total_connections == old(self).total_connections,
            final(self).start_time == old(self).start_time,
    {
        self.total_messages = self.total_messages.wrapping_add(1);
    }

    /// Counts one more accepted connection; the counter wraps at its limit.
    pub fn increment_connections(&mut self)
        ensures
            old(self).total_connections < u64::MAX ==> final(self).total_connections == old(
                self,
            ).total_connections + 1,
            old(self).total_connections == u64::MAX ==> final(self).total_connections == 0,
            final(self).total_messages == old(self).total_messages,
            final(self).start_time == old(self).start_time,
    {
        self.total_connections = self.total_connections.wrapping_add(1);
    }

    /// The number of messages handled so far.
    pub fn get_total_messages(&self) -> (r: u64)
        ensures
            r == self.total_messages,
    {
        self.total_messages
    }

    /// The number of connections accepted so far.
    pub fn get_total_connections(&self) -> (r: u64)
        ensures
            r == self.total_connections,
    {
        self.total_connections
    }
}

/// Resident pages of 4 KiB, expressed in whole mebibytes.
pub fn rss_pages_to_mb(pages: u64) -> (r: u64)
    ensures
        r == pages / 256,
{
    pages / 256
}

} // verus!
