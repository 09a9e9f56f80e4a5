//! Observability counters and the rates derived from them.

use vstd::prelude::*;

verus! {

/// A counter after one more event. A counter that has reached `u64::MAX`
/// stays there, so that no counter ever decreases.
pub open spec fn bump(count: u64) -> u64 {
    if count < u64::MAX {
        (count + 1) as u64
    } else {
        count
    }
}

/// Counts one more event on `count`.
pub fn bumped(count: u64) -> (next: u64)
    ensures
        next == bump(count),
        next >= count,
{
    if count < u64::MAX {
        count + 1
    } else {
        count
    }
}

/// A rate as an exact fraction. The denominator is never zero.
#[derive(Clone, Copy, Debug, PartialEq, Eq, Structural)]
pub struct Ratio {
    pub numerator: u64,
    pub denominator: u64,
}

/// `part` out of `whole`, and zero where `whole` is zero.
pub open spec fn rate(part: u64, whole: u64) -> Ratio {
    if whole == 0 {
        Ratio { numerator: 0, denominator: 1 }
    } else {
        Ratio { numerator: part, denominator: whole }
    }
}

/// A snapshot of the engine's counters.
#[derive(Clone, Copy, Debug, PartialEq, Eq, Structural)]
pub struct ReliableProviderStats {
    pub total_calls: u64,
    pub retry_count: u64,
    pub timeout_count: u64,
    pub cache_hits: u64,
    pub cache_lookups: u64,
    pub coalesced_wait_count: u64,
    pub hedge_launch_count: u64,
    pub hedge_win_count: u64,
    pub circuit_open_count: u64,
    pub circuit_half_open_count: u64,
    pub circuit_close_count: u64,
}

impl ReliableProviderStats {
    /// The snapshot of an engine on which nothing has happened yet.
    pub open spec fn zero() -> Self {
        ReliableProviderStats {
            total_calls: 0,
            retry_count: 0,
            timeout_count: 0,
            cache_hits: 0,
            cache_lookups: 0,
            coalesced_wait_count: 0,
            hedge_launch_count: 0,
            hedge_win_count: 0,
            circuit_open_count: 0,
            circuit_half_open_count: 0,
            circuit_close_count: 0,
        }
    }

    /// No counter of `self` exceeds its counterpart in `later`.
    pub open spec fn no_later_than(self, later: Self) -> bool {
        &&& self.total_calls <= later.total_calls
        &&& self.retry_count <= later.retry_count
        &&& self.timeout_count <= later.timeout_count
        &&& self.cache_hits <= later.cache_hits
        &&& self.cache_lookups <= later.cache_lookups
        &&& self.coalesced_wait_count <= later.coalesced_wait_count
        &&& self.hedge_launch_count <= later.hedge_launch_count
        &&& self.hedge_win_count <= later.hedge_win_count
        &&& self.circuit_open_count <= later.circuit_open_count
        &&& self.circuit_half_open_count <= later.circuit_half_open_count
        &&& self.circuit_close_count <= later.circuit_close_count
    }

    /// The share of provider calls that ended in a timeout: `timeout_count`
    /// out of `total_calls`, and zero before the first call.
    pub fn timeout_rate(&self) -> (r: Ratio)
        ensures
            r == rate(self.timeout_count, self.total_calls),
            r.denominator != 0,
    {
        if self.total_calls == 0 {
            Ratio { numerator: 0, denominator: 1 }
        } else {
            Ratio { numerator: self.timeout_count, denominator: self.total_calls }
        }
    }

    /// The share of cache lookups that hit: `cache_hits` out of
    /// `cache_lookups`, and zero before the first lookup.
    pub fn cache_hit_rate(&self) -> (r: Ratio)
        ensures
            r == rate(self.cache_hits, self.cache_lookups),
            r.denominator != 0,
    {
        if self.cache_lookups == 0 {
            Ratio { numerator: 0, denominator: 1 }
        } else {
            Ratio { numerator: self.cache_hits, denominator: self.cache_lookups }
        }
    }
}

impl Default for ReliableProviderStats {
    fn default() -> (s: Self)
        ensures
            s == ReliableProviderStats::zero(),
    {
        ReliableProviderStats {
            total_calls: 0,
            retry_count: 0,
            timeout_count: 0,
            cache_hits: 0,
            cache_lookups: 0,
            coalesced_wait_count: 0,
            hedge_launch_count: 0,
            hedge_win_count: 0,
            circuit_open_count: 0,
            circuit_half_open_count: 0,
            circuit_close_count: 0,
        }
    }
}

} // verus!
