//! A stored value together with the instant at which it stops being visible.

use vstd::prelude::*;
use crate::time::Duration;
use crate::time::Instant;

verus! {

/// A cached value and its optional absolute expiry.
///
/// `expiry == None` means that the entry never expires. With an expiry, the
/// entry counts as absent from that instant on, whether or not it has been
/// removed from storage yet.
pub struct Entry<V> {
    pub value: V,
    pub expiry: Option<Instant>,
}

/// The expiry of an entry written at `now` with time-to-live `ttl`.
///
/// No time-to-live means no expiry. An expiry beyond the last instant that
/// can be represented is never reached, so it is no expiry either.
pub open spec fn expiry_for(ttl: Option<Duration>, now: Instant) -> Option<Instant> {
    match ttl {
        Some(span) => now.plus(span),
        None => None,
    }
}

impl<V> Entry<V> {
    /// Whether the entry is visible at `now`.
    pub open spec fn live_at(self, now: Instant) -> bool {
        match self.expiry {
            Some(deadline) => now.nanos < deadline.nanos,
            None => true,
        }
    }

    /// The entry for `value` written at `now` with time-to-live `ttl`.
    pub open spec fn written(value: V, ttl: Option<Duration>, now: Instant) -> Entry<V> {
        Entry { value, expiry: expiry_for(ttl, now) }
    }

    /// Builds the entry for `value` written at `now` with time-to-live `ttl`.
    /// The expiry is fixed here and never moved by later reads.
    pub fn new(value: V, ttl: Option<Duration>, now: Instant) -> (e: Entry<V>)
        ensures
            e == Entry::written(value, ttl, now),
    {
        let expiry = match ttl {
            Some(span) => now.checked_add(span),
            None => None,
        };
        Entry { value, expiry }
    }

    /// Whether the entry is visible at `now`: it has no expiry, or `now` lies
    /// strictly before it.
    pub fn is_live(&self, now: Instant) -> (r: bool)
        ensures
            r == self.live_at(now),
    {
        match self.expiry {
            Some(deadline) => now.is_before(deadline),
            None => true,
        }
    }
}

/// An entry written at `t0` with time-to-live `span` is visible at exactly
/// the instants before `t0 + span`.
pub proof fn lemma_live_until_deadline<V>(value: V, span: Duration, t0: Instant, t: Instant)
    ensures
        Entry::written(value, Some(span), t0).live_at(t) <==> t.nanos < t0.nanos + span.nanos,
{
}

} // verus!
