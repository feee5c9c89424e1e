//! The server's observability counters.

use vstd::prelude::*;

verus! {

/// A thing the server counts.
#[derive(Clone, Copy, Debug, PartialEq, Eq, Structural)]
pub enum MetricEvent {
    SessionCreated,
    WsConnection,
    WsDisconnection,
    WsError,
    OperationApplied,
    FullSyncSent,
    RateLimitedRequest,
    TokenRevocation,
    TokenRotation,
}

/// One counter per kind of event; each wraps around at `u64::MAX`.
#[derive(Debug)]
pub struct AppMetrics {
    pub sessions_created: u64,
    pub ws_connections: u64,
    pub ws_disconnections: u64,
    pub ws_errors: u64,
    pub operations_applied: u64,
    pub full_syncs_sent: u64,
    pub rate_limited_requests: u64,
    pub token_revocations: u64,
    pub token_rotations: u64,
}

/// The counter after one more event.
pub open spec fn bumped(c: u64) -> u64 {
    if c == u64::MAX {
        0
    } else {
        (c + 1) as u64
    }
}

fn bump(c: u64) -> (r: u64)
    ensures
        r == bumped(c),
{
    if c == u64::MAX {
        0
    } else {
        c + 1
    }
}

impl AppMetrics {
    /// The counter that an event of kind `e` advances.
    pub open spec fn count_of(self, e: MetricEvent) -> u64 {
        match e {
            MetricEvent::SessionCreated => self.sessions_created,
            MetricEvent::WsConnection => self.ws_connections,
            MetricEvent::WsDisconnection => self.ws_disconnections,
            MetricEvent::WsError => self.ws_errors,
            MetricEvent::OperationApplied => self.operations_applied,
            MetricEvent::FullSyncSent => self.full_syncs_sent,
            MetricEvent::RateLimitedRequest => self.rate_limited_requests,
            MetricEvent::TokenRevocation => self.token_revocations,
            MetricEvent::TokenRotation => self.token_rotations,
        }
    }

    /// All counters at zero.
    pub fn new() -> (r: Self)
        ensures
            forall|e: MetricEvent| #[trigger] r.count_of(e) == 0,
    {
        AppMetrics {
            sessions_created: 0,
            ws_connections: 0,
            ws_disconnections: 0,
            ws_errors: 0,
            operations_applied: 0,
            full_syncs_sent: 0,
            rate_limited_requests: 0,
            token_revocations: 0,
            token_rotations: 0,
        }
    }

    /// Counts one event of kind `e`, leaving the other counters alone.
    pub fn record(&mut self, e: MetricEvent)
        ensures
            final(self).count_of(e) == bumped(old(self).count_of(e)),
            forall|o: MetricEvent| o != e ==> #[trigger] final(self).count_of(o) == old(self).count_of(o),
    {
        match e {
            MetricEvent::SessionCreated => self.sessions_created = bump(self.sessions_created),
            MetricEvent::WsConnection => self.ws_connections = bump(self.ws_connections),
            MetricEvent::WsDisconnection => self.ws_disconnections = bump(self.ws_disconnections),
            MetricEvent::WsError => self.ws_errors = bump(self.ws_errors),
            MetricEvent::OperationApplied => self.operations_applied = bump(self.operations_applied),
            MetricEvent::FullSyncSent => self.full_syncs_sent = bump(self.full_syncs_sent),
            MetricEvent::RateLimitedRequest => self.rate_limited_requests = bump(
                self.rate_limited_requests,
            ),
            MetricEvent::TokenRevocation => self.token_revocations = bump(self.token_revocations),
            MetricEvent::TokenRotation => self.token_rotations = bump(self.token_rotations),
        }
    }
}

} // verus!
