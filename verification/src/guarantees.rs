//! What the invocation pipeline guarantees, proved over its model.

use crate::cache::{lemma_filter_keys, CacheModel, EntryModel};
use crate::circuit::{after_failures, theorem_opens_at_threshold, CircuitState};
use crate::classify::ProviderError;
use crate::model::{
    aggregated_failure, attempt_failure_text, circuit_open_text, providers_called, run,
    EngineModel, InvocationModel, Report, StepModel,
};
use crate::stats::bump;
use crate::text::joined;
use vstd::prelude::*;

verus! {

/// The notes left for providers skipped on an open breaker, one for each
/// name, in order.
pub open spec fn skip_notes(names: Seq<Seq<char>>) -> Seq<Seq<char>> {
    names.map_values(|name: Seq<char>| circuit_open_text(name))
}

/// Two engines differ in nothing that is fixed when an engine is built.
pub open spec fn same_setup(a: EngineModel, b: EngineModel) -> bool {
    &&& a.provider_names == b.provider_names
    &&& a.max_retries == b.max_retries
    &&& a.base_backoff_ms == b.base_backoff_ms
    &&& a.hedge_enabled == b.hedge_enabled
    &&& a.hedge_delay_ms == b.hedge_delay_ms
    &&& a.context == b.context
    &&& a.breakers.failure_threshold == b.breakers.failure_threshold
    &&& a.breakers.cooldown_ms == b.breakers.cooldown_ms
    &&& a.cache.ttl_secs == b.cache.ttl_secs
    &&& a.cache.max_entries == b.cache.max_entries
}

/// Two engines agree on every counter that a walk over the providers
/// leaves alone: retries, timeouts, lookups, hits, coalesced waits, hedge
/// wins, and the openings and closings of breakers.
pub open spec fn untouched_by_walk(a: EngineModel, b: EngineModel) -> bool {
    &&& a.retry_count == b.retry_count
    &&& a.timeout_count == b.timeout_count
    &&& a.cache_lookups == b.cache_lookups
    &&& a.cache_hits == b.cache_hits
    &&& a.coalesced_wait_count == b.coalesced_wait_count
    &&& a.hedge_win_count == b.hedge_win_count
    &&& a.breakers.open_count == b.breakers.open_count
    &&& a.breakers.close_count == b.breakers.close_count
}

/// The notes that a walk from `inv` has left when it stops at `stop`: those
/// that were there, then one for each provider skipped on the way.
pub open spec fn notes_after_walk(e: EngineModel, inv: InvocationModel, stop: nat) -> Seq<
    Seq<char>,
> {
    if inv.provider <= stop <= e.provider_names.len() {
        inv.failures + skip_notes(e.provider_names.subrange(inv.provider as int, stop as int))
    } else {
        inv.failures
    }
}

/// What an attempt does: it is counted as a call and asks for exactly one
/// call, on the same provider, with the notes as they were.
pub proof fn lemma_attempt(e: EngineModel, inv: InvocationModel, now: u64)
    ensures
        ({
            let (after, step) = e.attempt(inv, now);
            &&& same_setup(e, after)
            &&& after.cache == e.cache
            &&& after.inflight == e.inflight
            &&& after.total_calls == bump(e.total_calls)
            &&& e.stats().no_later_than(after.stats())
            &&& untouched_by_walk(e, after)
            &&& step matches StepModel::Call(next)
            &&& next == InvocationModel { hedged: next.hedged, ..inv }
            &&& next.hedged ==> e.hedge_enabled && inv.attempt == 0 && inv.provider + 1
                < e.provider_names.len()
        }),
{
}

/// What a walk over the providers does.
///
/// It ends in a call to a provider at or behind the one whose turn it was,
/// counted as one call, or, past the last provider, in the aggregated
/// error, with no call at all. Every provider passed over has left its
/// note. The cache is not touched, and the flight ends only with the error.
pub proof fn lemma_advance(e: EngineModel, inv: InvocationModel, now: u64)
    ensures
        ({
            let (after, step) = e.advance(inv, now);
            &&& same_setup(e, after)
            &&& after.cache == e.cache
            &&& e.stats().no_later_than(after.stats())
            &&& untouched_by_walk(e, after)
            &&& match step {
                StepModel::Call(next) => {
                    &&& inv.provider <= next.provider < e.provider_names.len()
                    &&& next.attempt == 0
                    &&& next.key == inv.key
                    &&& next.backoff_ms == e.base_backoff_ms
                    &&& next.failures == notes_after_walk(e, inv, next.provider)
                    &&& after.total_calls == bump(e.total_calls)
                    &&& after.inflight == e.inflight
                },
                StepModel::Done(outcome) => {
                    &&& outcome == Err::<Seq<char>, Seq<char>>(
                        aggregated_failure(notes_after_walk(e, inv, e.provider_names.len())),
                    )
                    &&& after.total_calls == e.total_calls
                    &&& after.inflight == e.inflight.remove(inv.key)
                },
                _ => false,
            }
        }),
    decreases e.provider_names.len() - inv.provider,
{
    let count = e.provider_names.len();
    if inv.provider >= count {
        if inv.provider == count {
            assert(e.provider_names.subrange(inv.provider as int, count as int) =~= Seq::empty());
            assert(inv.failures + skip_notes(Seq::empty()) =~= inv.failures);
        }
    } else {
        let name = e.provider_names[inv.provider as int];
        let asked = EngineModel { breakers: e.breakers.after_allows_call(name, now), ..e };
        if e.breakers.allows(name, now) {
            let first = InvocationModel { attempt: 0, backoff_ms: e.base_backoff_ms, ..inv };
            lemma_attempt(asked, first, now);
            assert(e.provider_names.subrange(inv.provider as int, inv.provider as int)
                =~= Seq::empty());
            assert(inv.failures + skip_notes(Seq::empty()) =~= inv.failures);
        } else {
            let next = InvocationModel {
                provider: inv.provider + 1,
                failures: inv.failures.push(circuit_open_text(name)),
                ..inv
            };
            lemma_advance(asked, next, now);
            let (after, step) = asked.advance(next, now);
            assert forall|stop: nat| inv.provider < stop <= count implies notes_after_walk(
                asked,
                next,
                stop,
            ) == notes_after_walk(e, inv, stop) by {
                assert(next.failures + skip_notes(
                    e.provider_names.subrange(next.provider as int, stop as int),
                ) =~= inv.failures + skip_notes(
                    e.provider_names.subrange(inv.provider as int, stop as int),
                ));
            }
        }
    }
}

/// No counter ever decreases, whatever step the engine takes.
pub proof fn theorem_counters_never_decrease(
    e: EngineModel,
    inv: InvocationModel,
    key: Seq<char>,
    received: Option<Result<String, String>>,
    by_hedge: bool,
    result: Result<String, ProviderError>,
    now: u64,
)
    ensures
        e.stats().no_later_than(e.start(key, now).0.stats()),
        e.stats().no_later_than(e.leader_outcome(inv, received, now).0.stats()),
        e.stats().no_later_than(e.call_completed(inv, by_hedge, result, now).0.stats()),
        e.stats().no_later_than(e.backoff_elapsed(inv, now).0.stats()),
{
    lemma_attempt(e, inv, now);
    lemma_advance(e, inv, now);
    // start
    let looked = EngineModel {
        cache_lookups: bump(e.cache_lookups),
        cache: e.cache.after_get(now),
        ..e
    };
    let joined = EngineModel { inflight: e.inflight.insert(key), ..looked };
    lemma_advance(joined, e.opening(key), now);
    // call_completed
    match result {
        Ok(_) => {},
        Err(error) => {
            lemma_advance(
                e.after_failed_call(inv, by_hedge, error, now),
                InvocationModel { provider: inv.provider + 1, ..e.with_attempt_noted(inv, error) },
                now,
            );
        },
    }
}

/// The cache never exceeds its capacity and never holds a key twice,
/// whatever step the engine takes.
pub proof fn theorem_cache_stays_bounded(
    e: EngineModel,
    inv: InvocationModel,
    key: Seq<char>,
    received: Option<Result<String, String>>,
    by_hedge: bool,
    result: Result<String, ProviderError>,
    now: u64,
)
    requires
        e.cache.wf(),
    ensures
        e.start(key, now).0.cache.wf(),
        e.leader_outcome(inv, received, now).0.cache.wf(),
        e.call_completed(inv, by_hedge, result, now).0.cache.wf(),
        e.backoff_elapsed(inv, now).0.cache.wf(),
        e.start(key, now).0.cache.entries.len() <= e.cache.max_entries,
        e.leader_outcome(inv, received, now).0.cache.entries.len() <= e.cache.max_entries,
        e.call_completed(inv, by_hedge, result, now).0.cache.entries.len() <= e.cache.max_entries,
        e.backoff_elapsed(inv, now).0.cache.entries.len() <= e.cache.max_entries,
{
    lemma_attempt(e, inv, now);
    lemma_advance(e, inv, now);
    e.cache.theorem_get_keeps_bound(now);
    let looked = EngineModel {
        cache_lookups: bump(e.cache_lookups),
        cache: e.cache.after_get(now),
        ..e
    };
    let joined = EngineModel { inflight: e.inflight.insert(key), ..looked };
    lemma_advance(joined, e.opening(key), now);
    match received {
        Some(Ok(shared)) => {
            e.cache.theorem_put_keeps_bound(inv.key, shared@, now);
        },
        _ => {},
    }
    match result {
        Ok(response) => {
            e.cache.theorem_put_keeps_bound(inv.key, response@, now);
        },
        Err(error) => {
            lemma_advance(
                e.after_failed_call(inv, by_hedge, error, now),
                InvocationModel { provider: inv.provider + 1, ..e.with_attempt_noted(inv, error) },
                now,
            );
        },
    }
}

/// What follows a failed attempt.
///
/// The attempt leaves exactly one note, behind those that were there. If
/// the failure is retryable and attempts remain, the request waits the
/// current backoff, which is counted as a retry, and the next attempt is on
/// the same provider. Otherwise the request moves on: the next call, if
/// there is one, is the first attempt on a later provider, every provider
/// skipped in between has left its note, and past the last provider the
/// request fails with the aggregation of all notes.
pub proof fn theorem_failed_attempt(
    e: EngineModel,
    inv: InvocationModel,
    by_hedge: bool,
    error: ProviderError,
    now: u64,
)
    ensures
        ({
            let (after, step) = e.call_completed(
                inv,
                by_hedge,
                Err::<String, ProviderError>(error),
                now,
            );
            let noted = e.with_attempt_noted(inv, error);
            let moved = InvocationModel { provider: inv.provider + 1, ..noted };
            let retrying = !error.non_retryable() && inv.attempt < e.max_retries;
            match step {
                StepModel::Sleep(next, millis) => {
                    &&& retrying
                    &&& millis == inv.backoff_ms
                    &&& next.provider == inv.provider
                    &&& next.attempt == inv.attempt + 1
                    &&& next.failures == noted.failures
                    &&& after.retry_count == bump(e.retry_count)
                    &&& after.total_calls == e.total_calls
                },
                StepModel::Call(next) => {
                    &&& !retrying
                    &&& inv.provider < next.provider < e.provider_names.len()
                    &&& next.attempt == 0
                    &&& next.failures == notes_after_walk(e, moved, next.provider)
                    &&& after.retry_count == e.retry_count
                    &&& after.total_calls == bump(e.total_calls)
                },
                StepModel::Done(outcome) => {
                    &&& !retrying
                    &&& outcome == Err::<Seq<char>, Seq<char>>(
                        aggregated_failure(notes_after_walk(e, moved, e.provider_names.len())),
                    )
                    &&& after.retry_count == e.retry_count
                    &&& after.total_calls == e.total_calls
                },
                StepModel::Wait(_) => false,
            }
        }),
{
    let failed = e.after_failed_call(inv, by_hedge, error, now);
    let noted = e.with_attempt_noted(inv, error);
    let moved = InvocationModel { provider: inv.provider + 1, ..noted };
    lemma_advance(failed, moved, now);
    assert forall|stop: nat| notes_after_walk(failed, moved, stop) == notes_after_walk(
        e,
        moved,
        stop,
    ) by {}
}

/// A non-retryable failure ends a provider's turn at once: whatever the
/// number of retries allowed, no wait and no further attempt on that
/// provider follows, and nothing is counted as a retry.
pub proof fn theorem_non_retryable_moves_on(
    e: EngineModel,
    inv: InvocationModel,
    by_hedge: bool,
    error: ProviderError,
    now: u64,
)
    requires
        error.non_retryable(),
    ensures
        ({
            let (after, step) = e.call_completed(
                inv,
                by_hedge,
                Err::<String, ProviderError>(error),
                now,
            );
            &&& after.retry_count == e.retry_count
            &&& match step {
                StepModel::Call(next) => next.provider > inv.provider,
                StepModel::Done(outcome) => outcome is Err,
                _ => false,
            }
        }),
{
    theorem_failed_attempt(e, inv, by_hedge, error, now);
}

/// The aggregated error starts with its heading, whatever the notes.
pub proof fn theorem_aggregated_heading(failures: Seq<Seq<char>>)
    ensures
        aggregated_failure(failures) == "All providers failed"@ + ". Attempts:\n"@ + joined(
            failures,
            "\n"@,
        ),
{
    reveal_strlit("All providers failed. Attempts:\n");
    reveal_strlit("All providers failed");
    reveal_strlit(". Attempts:\n");
    assert("All providers failed. Attempts:\n"@ =~= "All providers failed"@ + ". Attempts:\n"@);
}

/// A provider whose breaker is open when its turn comes is not called: the
/// walk leaves the note of the skip in its place and goes on behind it.
pub proof fn theorem_open_breaker_is_skipped(e: EngineModel, inv: InvocationModel, now: u64)
    requires
        inv.provider < e.provider_names.len(),
        e.breakers.state_of(e.provider_names[inv.provider as int]).is_open(now),
    ensures
        ({
            let (after, step) = e.advance(inv, now);
            let skip = circuit_open_text(e.provider_names[inv.provider as int]);
            match step {
                StepModel::Call(next) => {
                    &&& next.provider > inv.provider
                    &&& next.failures.len() > inv.failures.len()
                    &&& next.failures[inv.failures.len() as int] == skip
                },
                StepModel::Done(outcome) => {
                    &&& outcome == Err::<Seq<char>, Seq<char>>(
                        aggregated_failure(notes_after_walk(e, inv, e.provider_names.len())),
                    )
                    &&& notes_after_walk(e, inv, e.provider_names.len())[inv.failures.len() as int]
                        == skip
                },
                _ => false,
            }
        }),
{
    lemma_advance(e, inv, now);
    let name = e.provider_names[inv.provider as int];
    let asked = EngineModel { breakers: e.breakers.after_allows_call(name, now), ..e };
    let next = InvocationModel {
        provider: inv.provider + 1,
        failures: inv.failures.push(circuit_open_text(name)),
        ..inv
    };
    lemma_advance(asked, next, now);
}

/// A provider whose cooldown has elapsed when its turn comes is called: its
/// breaker half-opens, which is counted, and is closed from then on.
///
/// This is stated for an engine without hedging; with hedging, the breaker
/// of the next provider may half-open in the same step.
pub proof fn theorem_elapsed_cooldown_is_admitted(e: EngineModel, inv: InvocationModel, now: u64)
    requires
        !e.hedge_enabled,
        inv.provider < e.provider_names.len(),
        e.breakers.state_of(e.provider_names[inv.provider as int]).open_until matches Some(until)
            && now >= until,
    ensures
        ({
            let name = e.provider_names[inv.provider as int];
            let (after, step) = e.advance(inv, now);
            &&& step matches StepModel::Call(next)
            &&& next.provider == inv.provider
            &&& next.attempt == 0
            &&& next.failures == inv.failures
            &&& after.breakers.half_open_count == bump(e.breakers.half_open_count)
            &&& after.breakers.state_of(name) == CircuitState::fresh()
        }),
{
}

/// An attempt is hedged exactly where hedging is on, the attempt is the
/// first of its turn, a next provider exists, and the breaker of that
/// provider admits a call. A hedged attempt is counted as a hedge launch.
pub proof fn theorem_hedge_conditions(e: EngineModel, inv: InvocationModel, now: u64)
    ensures
        ({
            let (after, step) = e.attempt(inv, now);
            &&& step matches StepModel::Call(next)
            &&& next.hedged == (e.hedge_enabled && inv.attempt == 0 && inv.provider + 1
                < e.provider_names.len() && e.breakers.allows(e.name_at(inv.provider + 1), now))
            &&& after.hedge_launch_count == if next.hedged {
                bump(e.hedge_launch_count)
            } else {
                e.hedge_launch_count
            }
        }),
{
}

/// While a fingerprint is in flight, a request for it that misses the
/// cache calls no provider: it waits for the leader, which is counted as a
/// coalesced wait.
pub proof fn theorem_follower_waits(e: EngineModel, key: Seq<char>, now: u64)
    requires
        e.inflight.contains(key),
        e.cache.lookup(key, now) is None,
    ensures
        e.start(key, now).1 == StepModel::Wait(e.opening(key)),
        e.start(key, now).0.total_calls == e.total_calls,
        e.start(key, now).0.coalesced_wait_count == bump(e.coalesced_wait_count),
        e.start(key, now).0.inflight == e.inflight,
{
    assert(e.inflight.insert(key) =~= e.inflight);
}

/// A request that misses the cache while its fingerprint is not in flight
/// leads: it asks for one provider call, counted as one, or, where no
/// provider is admitted, fails at once without any call.
pub proof fn theorem_leader_calls_once(e: EngineModel, key: Seq<char>, now: u64)
    requires
        !e.inflight.contains(key),
        e.cache.lookup(key, now) is None,
    ensures
        match e.start(key, now).1 {
            StepModel::Call(next) => {
                &&& next.key == key
                &&& next.attempt == 0
                &&& e.start(key, now).0.total_calls == bump(e.total_calls)
                &&& e.start(key, now).0.inflight == e.inflight.insert(key)
            },
            StepModel::Done(outcome) => {
                &&& outcome is Err
                &&& e.start(key, now).0.total_calls == e.total_calls
                &&& e.start(key, now).0.inflight == e.inflight
            },
            _ => false,
        },
        e.start(key, now).0.coalesced_wait_count == e.coalesced_wait_count,
{
    let looked = EngineModel {
        cache_lookups: bump(e.cache_lookups),
        cache: e.cache.after_get(now),
        ..e
    };
    let joined = EngineModel { inflight: e.inflight.insert(key), ..looked };
    lemma_advance(joined, e.opening(key), now);
    assert(e.inflight.insert(key).remove(key) =~= e.inflight);
}

/// A follower that receives the leader's response ends with that response
/// and calls no provider.
pub proof fn theorem_follower_shares_response(
    e: EngineModel,
    inv: InvocationModel,
    shared: String,
    now: u64,
)
    ensures
        e.leader_outcome(inv, Some(Ok(shared)), now).1 == StepModel::Done(Ok(shared@)),
        e.leader_outcome(inv, Some(Ok(shared)), now).0.total_calls == e.total_calls,
{
}

/// A request that leads stays in flight for as long as it has not ended,
/// so that every request for its fingerprint that misses the cache in the
/// meantime waits for it.
pub proof fn theorem_leader_stays_in_flight(
    e: EngineModel,
    inv: InvocationModel,
    key: Seq<char>,
    by_hedge: bool,
    result: Result<String, ProviderError>,
    now: u64,
)
    ensures
        !(e.start(key, now).1 is Done) ==> e.start(key, now).0.inflight.contains(key),
        !(e.call_completed(inv, by_hedge, result, now).1 is Done) ==> e.call_completed(
            inv,
            by_hedge,
            result,
            now,
        ).0.inflight == e.inflight,
        e.backoff_elapsed(inv, now).0.inflight == e.inflight,
{
    lemma_attempt(e, inv, now);
    let looked = EngineModel {
        cache_lookups: bump(e.cache_lookups),
        cache: e.cache.after_get(now),
        ..e
    };
    let joined = EngineModel { inflight: e.inflight.insert(key), ..looked };
    lemma_advance(joined, e.opening(key), now);
    match result {
        Ok(_) => {},
        Err(error) => {
            lemma_advance(
                e.after_failed_call(inv, by_hedge, error, now),
                InvocationModel { provider: inv.provider + 1, ..e.with_attempt_noted(inv, error) },
                now,
            );
        },
    }
}

/// The cache is never ahead of the clock: where it holds nothing stamped
/// later than one reading, it holds nothing stamped later than the reading
/// of any step that follows, provided that reading is no smaller. A new
/// engine's cache is empty, so on an engine that is handed readings that
/// never decrease this holds after every step.
pub proof fn theorem_cache_keeps_pace(
    e: EngineModel,
    inv: InvocationModel,
    key: Seq<char>,
    received: Option<Result<String, String>>,
    by_hedge: bool,
    result: Result<String, ProviderError>,
    earlier: u64,
    now: u64,
)
    requires
        e.cache.wf(),
        e.cache.nothing_after(earlier),
        earlier <= now,
    ensures
        e.start(key, now).0.cache.nothing_after(now),
        e.leader_outcome(inv, received, now).0.cache.nothing_after(now),
        e.call_completed(inv, by_hedge, result, now).0.cache.nothing_after(now),
        e.backoff_elapsed(inv, now).0.cache.nothing_after(now),
{
    lemma_attempt(e, inv, now);
    lemma_advance(e, inv, now);
    e.cache.theorem_keeps_pace(key, Seq::empty(), earlier, now);
    let looked = EngineModel {
        cache_lookups: bump(e.cache_lookups),
        cache: e.cache.after_get(now),
        ..e
    };
    let joined = EngineModel { inflight: e.inflight.insert(key), ..looked };
    lemma_advance(joined, e.opening(key), now);
    match received {
        Some(Ok(shared)) => {
            e.cache.theorem_keeps_pace(inv.key, shared@, earlier, now);
        },
        _ => {},
    }
    match result {
        Ok(response) => {
            e.cache.theorem_keeps_pace(inv.key, response@, earlier, now);
        },
        Err(error) => {
            lemma_advance(
                e.after_failed_call(inv, by_hedge, error, now),
                InvocationModel { provider: inv.provider + 1, ..e.with_attempt_noted(inv, error) },
                now,
            );
        },
    }
}

/// A request is answered again: on an engine whose cache is switched on and
/// not ahead of the clock, a request that has just ended with a response,
/// whether a provider returned it or a leader shared it, is followed, at
/// the same reading and with nothing in between, by a cache hit with the
/// same response for the same fingerprint. That hit calls no provider and
/// counts no retry; it counts one lookup and one hit.
pub proof fn theorem_answered_again(
    e: EngineModel,
    inv: InvocationModel,
    by_hedge: bool,
    response: String,
    earlier: u64,
    now: u64,
)
    requires
        e.cache.wf(),
        e.cache.enabled(),
        e.cache.nothing_after(earlier),
        earlier <= now,
    ensures
        ({
            let called = e.call_completed(inv, by_hedge, Ok::<String, ProviderError>(response), now).0;
            let shared = e.leader_outcome(inv, Some(Ok(response)), now).0;
            &&& called.start(inv.key, now).1 == StepModel::Done(Ok(response@))
            &&& shared.start(inv.key, now).1 == StepModel::Done(Ok(response@))
            &&& answered_from_cache(called, called.start(inv.key, now).0)
            &&& answered_from_cache(shared, shared.start(inv.key, now).0)
        }),
{
    e.cache.theorem_keeps_pace(inv.key, response@, earlier, now);
    e.cache.theorem_put_then_lookup(inv.key, response@, now);
}

/// What a cache hit counts: one lookup and one hit, and nothing else.
pub open spec fn answered_from_cache(before: EngineModel, after: EngineModel) -> bool {
    &&& after.total_calls == before.total_calls
    &&& after.retry_count == before.retry_count
    &&& after.timeout_count == before.timeout_count
    &&& after.coalesced_wait_count == before.coalesced_wait_count
    &&& after.hedge_launch_count == before.hedge_launch_count
    &&& after.hedge_win_count == before.hedge_win_count
    &&& after.cache_lookups == bump(before.cache_lookups)
    &&& after.cache_hits == bump(before.cache_hits)
    &&& after.breakers == before.breakers
    &&& after.inflight == before.inflight
}

/// A response that a provider call has just returned is served from the
/// cache to a request for the same fingerprint at the same clock reading,
/// without any provider call. This holds where the cache is switched on and
/// holds nothing stamped later than that reading.
pub proof fn theorem_response_served_from_cache(
    e: EngineModel,
    inv: InvocationModel,
    by_hedge: bool,
    response: String,
    now: u64,
)
    requires
        e.cache.wf(),
        e.cache.enabled(),
        e.cache.nothing_after(now),
    ensures
        ({
            let after = e.call_completed(inv, by_hedge, Ok::<String, ProviderError>(response), now).0;
            let again = after.start(inv.key, now);
            &&& again.1 == StepModel::Done(Ok(response@))
            &&& again.0.total_calls == after.total_calls
            &&& again.0.cache_hits == bump(after.cache_hits)
        }),
{
    e.cache.theorem_put_then_lookup(inv.key, response@, now);
}

/// A response that a follower has received from its leader is served from
/// the cache to a request for the same fingerprint at the same clock
/// reading, without any provider call. This holds where the cache is
/// switched on and holds nothing stamped later than that reading.
pub proof fn theorem_shared_response_served_from_cache(
    e: EngineModel,
    inv: InvocationModel,
    shared: String,
    now: u64,
)
    requires
        e.cache.wf(),
        e.cache.enabled(),
        e.cache.nothing_after(now),
    ensures
        ({
            let after = e.leader_outcome(inv, Some(Ok(shared)), now).0;
            let again = after.start(inv.key, now);
            &&& again.1 == StepModel::Done(Ok(shared@))
            &&& again.0.total_calls == after.total_calls
            &&& again.0.cache_hits == bump(after.cache_hits)
        }),
{
    e.cache.theorem_put_then_lookup(inv.key, shared@, now);
}

/// A request that ends at once with a response was served from the cache,
/// and a request for the same fingerprint at the same clock reading is
/// served the same response, without any provider call.
pub proof fn theorem_cached_response_served_again(e: EngineModel, key: Seq<char>, now: u64)
    requires
        e.start(key, now).1 matches StepModel::Done(Ok(_)),
    ensures
        ({
            let first = e.start(key, now);
            let again = first.0.start(key, now);
            &&& first.1 == StepModel::Done(Ok(e.cache.lookup(key, now).unwrap()))
            &&& again.1 == first.1
            &&& answered_from_cache(e, first.0)
            &&& answered_from_cache(first.0, again.0)
        }),
{
    let looked = EngineModel {
        cache_lookups: bump(e.cache_lookups),
        cache: e.cache.after_get(now),
        ..e
    };
    let joined = EngineModel { inflight: e.inflight.insert(key), ..looked };
    lemma_advance(joined, e.opening(key), now);
    e.cache.theorem_lookup_again(key, now);
}

/// Every report up to and including position `last` is a failure that
/// may be retried.
pub open spec fn retryable_failures(reports: Seq<Report>, last: int) -> bool {
    forall|i: int|
        0 <= i <= last && i < reports.len() ==> (#[trigger] reports[i]).result is Err
            && !reports[i].result->Err_0.non_retryable()
}

/// The retries of the first provider, and the fallback to the second.
proof fn lemma_retries_then_fallback(
    e: EngineModel,
    inv: InvocationModel,
    reports: Seq<Report>,
    response: String,
)
    requires
        !e.hedge_enabled,
        e.provider_names.len() >= 2,
        e.provider_names[0] != e.provider_names[1],
        e.breakers.state_of(e.provider_names[1]).open_until is None,
        inv.provider == 0,
        !inv.hedged,
        inv.attempt <= e.max_retries,
        reports.len() == e.max_retries - inv.attempt + 2,
        retryable_failures(reports, e.max_retries - inv.attempt),
        reports.last().result == Ok::<String, ProviderError>(response),
        e.total_calls + reports.len() - 1 <= u64::MAX,
        e.retry_count + reports.len() - 2 <= u64::MAX,
    ensures
        run(e, StepModel::Call(inv), reports).1 == StepModel::Done(Ok(response@)),
        run(e, StepModel::Call(inv), reports).0.total_calls == e.total_calls + reports.len() - 1,
        run(e, StepModel::Call(inv), reports).0.retry_count == e.retry_count + reports.len() - 2,
        providers_called(e, StepModel::Call(inv), reports) == first_then_second(reports.len()),
    decreases e.max_retries - inv.attempt,
{
    let report = reports[0];
    let rest = reports.drop_first();
    let error = report.result->Err_0;
    assert(report.result == Err::<String, ProviderError>(error));
    let (after, step) = e.call_completed(inv, report.by_hedge, report.result, report.at);
    let first = e.provider_names[0];
    let second = e.provider_names[1];
    e.breakers.theorem_one_breaker_each(first, second, report.at);
    assert(e.name_at(e.winner(inv, report.by_hedge)) == first);
    assert(e.breakers.after_failure(first, report.at).state_of(second).open_until is None);
    if inv.attempt < e.max_retries {
        // The request waits, then attempts again on the first provider.
        let next = step->Sleep_0;
        assert(step is Sleep);
        assert(rest.len() > 0);
        let (woken, again) = after.backoff_elapsed(next, rest[0].at);
        assert(again == StepModel::Call(InvocationModel { hedged: false, ..next }));
        assert forall|i: int|
            0 <= i <= e.max_retries - next.attempt && i < rest.len() implies (
        #[trigger] rest[i]).result is Err && !rest[i].result->Err_0.non_retryable() by {
            assert(rest[i] == reports[i + 1]);
        }
        assert(rest.last() == reports.last());
        lemma_retries_then_fallback(woken, InvocationModel { hedged: false, ..next }, rest, response);
        assert(run(after, step, rest) == run(woken, again, rest));
        assert(run(e, StepModel::Call(inv), reports) == run(after, step, rest));
        assert(providers_called(after, step, rest) == providers_called(woken, again, rest));
        assert(providers_called(e, StepModel::Call(inv), reports) == seq![0nat]
            + providers_called(after, step, rest));
        assert(seq![0nat] + first_then_second(rest.len()) =~= first_then_second(reports.len()));
    } else {
        // The first provider is exhausted: the second gets its first attempt.
        let failed = e.after_failed_call(inv, report.by_hedge, error, report.at);
        let moved = InvocationModel {
            provider: 1,
            ..e.with_attempt_noted(inv, error)
        };
        assert((after, step) == failed.advance(moved, report.at));
        let asked = EngineModel {
            breakers: failed.breakers.after_allows_call(second, report.at),
            ..failed
        };
        let opened = InvocationModel { attempt: 0, backoff_ms: e.base_backoff_ms, ..moved };
        assert((after, step) == asked.attempt(opened, report.at));
        assert(step == StepModel::Call(InvocationModel { hedged: false, ..opened }));
        assert(rest.len() == 1);
        assert(rest[0] == reports.last());
        let ended = after.call_completed(
            InvocationModel { hedged: false, ..opened },
            rest[0].by_hedge,
            rest[0].result,
            rest[0].at,
        );
        assert(ended.1 == StepModel::Done(Ok(response@)));
        assert(rest.drop_first().len() == 0);
        assert(run(ended.0, ended.1, rest.drop_first()) == ended);
        assert(run(after, step, rest) == ended);
        assert(run(e, StepModel::Call(inv), reports) == run(after, step, rest));
        assert(providers_called(ended.0, ended.1, rest.drop_first()) =~= Seq::<nat>::empty());
        assert(providers_called(after, step, rest) =~= seq![1nat]);
        assert(providers_called(e, StepModel::Call(inv), reports) == seq![0nat]
            + providers_called(after, step, rest));
        assert(seq![0nat] + seq![1nat] =~= first_then_second(reports.len()));
    }
}

/// The first provider called every time but the last, and the second
/// provider called last.
pub open spec fn first_then_second(calls: nat) -> Seq<nat> {
    Seq::new(calls, |i: int| if i + 1 < calls { 0nat } else { 1nat })
}

/// Retries, then fallback: where the first provider fails every one of its
/// attempts with a retryable failure and the second provider answers its
/// first call, the request ends with that answer after exactly
/// `max_retries + 2` provider calls: `max_retries + 1` on the first
/// provider, of which all but the first are counted as retries, and then
/// one on the second.
///
/// This is stated for a request that leads its flight on an engine without
/// hedging, whose first two providers have different names, the first
/// admitted and the second with a closed breaker, and whose call counter
/// has room for the calls.
pub proof fn theorem_fallback_after_retries(
    e: EngineModel,
    key: Seq<char>,
    now: u64,
    reports: Seq<Report>,
    response: String,
)
    requires
        !e.hedge_enabled,
        e.provider_names.len() >= 2,
        e.provider_names[0] != e.provider_names[1],
        e.cache.lookup(key, now) is None,
        !e.inflight.contains(key),
        e.breakers.allows(e.provider_names[0], now),
        e.breakers.state_of(e.provider_names[1]).open_until is None,
        reports.len() == e.max_retries + 2,
        retryable_failures(reports, e.max_retries as int),
        reports.last().result == Ok::<String, ProviderError>(response),
        e.total_calls + e.max_retries + 2 <= u64::MAX,
        e.retry_count + e.max_retries <= u64::MAX,
    ensures
        ({
            let begun = e.start(key, now);
            let ended = run(begun.0, begun.1, reports);
            &&& ended.1 == StepModel::Done(Ok(response@))
            &&& ended.0.total_calls == e.total_calls + e.max_retries + 2
            &&& ended.0.retry_count == e.retry_count + e.max_retries
            &&& providers_called(begun.0, begun.1, reports) == first_then_second(
                (e.max_retries + 2) as nat,
            )
        }),
{
    let first = e.provider_names[0];
    let second = e.provider_names[1];
    let looked = EngineModel {
        cache_lookups: bump(e.cache_lookups),
        cache: e.cache.after_get(now),
        ..e
    };
    let joined = EngineModel { inflight: e.inflight.insert(key), ..looked };
    let asked = EngineModel { breakers: joined.breakers.after_allows_call(first, now), ..joined };
    let opening = e.opening(key);
    assert(e.start(key, now) == joined.advance(opening, now));
    assert(joined.advance(opening, now) == asked.attempt(opening, now));
    let begun = e.start(key, now);
    assert(begun.1 == StepModel::Call(opening));
    e.breakers.theorem_one_breaker_each(first, second, now);
    lemma_retries_then_fallback(begun.0, opening, reports, response);
}

/// The engine after requests for `key` have arrived at the clock readings
/// `times`, one after the other.
pub open spec fn after_requests(e: EngineModel, key: Seq<char>, times: Seq<u64>) -> EngineModel
    decreases times.len(),
{
    if times.len() == 0 {
        e
    } else {
        after_requests(e, key, times.drop_last()).start(key, times.last()).0
    }
}

/// A key that a read did not find is not found by any read that follows.
proof fn lemma_miss_stays_miss(cache: CacheModel, key: Seq<char>, now: u64, later: u64)
    requires
        cache.wf(),
        cache.lookup(key, now) is None,
    ensures
        cache.after_get(now).wf(),
        cache.after_get(now).lookup(key, later) is None,
{
    cache.theorem_get_keeps_bound(now);
    if cache.enabled() {
        let swept = cache.after_get(now).entries;
        lemma_filter_keys(swept, |e: EntryModel| !e.expired(cache.ttl_secs, later));
    }
}

/// Single flight: while a fingerprint is in flight, every request for it
/// that arrives waits for the leader, however many arrive, and none of
/// them calls a provider. This is stated for requests of which the first
/// misses the cache; the others then miss it too.
pub proof fn theorem_single_flight(e: EngineModel, key: Seq<char>, times: Seq<u64>)
    requires
        e.cache.wf(),
        e.inflight.contains(key),
        times.len() >= 1,
        e.cache.lookup(key, times[0]) is None,
    ensures
        after_requests(e, key, times).total_calls == e.total_calls,
        after_requests(e, key, times).inflight == e.inflight,
        forall|i: int|
            0 <= i < times.len() ==> (#[trigger] after_requests(e, key, times.take(i)).start(
                key,
                times[i],
            )).1 is Wait,
    decreases times.len(),
{
    let earlier = times.drop_last();
    let before = after_requests(e, key, earlier);
    if earlier.len() == 0 {
        assert(before == e);
        theorem_follower_waits(e, key, times[0]);
        assert forall|i: int| 0 <= i < times.len() implies (#[trigger] after_requests(
            e,
            key,
            times.take(i),
        ).start(key, times[i])).1 is Wait by {
            assert(times.take(0).len() == 0);
        }
    } else {
        theorem_single_flight(e, key, earlier);
        lemma_requests_miss(e, key, earlier, times.last());
        theorem_follower_waits(before, key, times.last());
        assert forall|i: int| 0 <= i < times.len() implies (#[trigger] after_requests(
            e,
            key,
            times.take(i),
        ).start(key, times[i])).1 is Wait by {
            if i < earlier.len() {
                assert(earlier.take(i) =~= times.take(i));
                assert(earlier[i] == times[i]);
            } else {
                assert(times.take(i) =~= earlier);
            }
        }
    }
}

/// After requests for a key of which the first missed the cache, the cache
/// is well formed and a read of the key misses.
proof fn lemma_requests_miss(e: EngineModel, key: Seq<char>, times: Seq<u64>, later: u64)
    requires
        e.cache.wf(),
        e.inflight.contains(key),
        times.len() >= 1,
        e.cache.lookup(key, times[0]) is None,
    ensures
        after_requests(e, key, times).cache.wf(),
        after_requests(e, key, times).cache.lookup(key, later) is None,
        after_requests(e, key, times).inflight == e.inflight,
    decreases times.len(),
{
    let earlier = times.drop_last();
    let before = after_requests(e, key, earlier);
    if earlier.len() == 0 {
        assert(before == e);
        theorem_follower_waits(e, key, times[0]);
        lemma_miss_stays_miss(e.cache, key, times[0], later);
    } else {
        lemma_requests_miss(e, key, earlier, times.last());
        theorem_follower_waits(before, key, times.last());
        lemma_miss_stays_miss(before.cache, key, times.last(), later);
    }
}

/// The clock readings of `reports`, in order.
pub open spec fn report_times(reports: Seq<Report>) -> Seq<u64> {
    reports.map_values(|r: Report| r.at)
}

/// The retries of one provider, as far as its breaker is concerned.
proof fn lemma_failures_reach_breaker(e: EngineModel, inv: InvocationModel, reports: Seq<Report>)
    requires
        !e.hedge_enabled,
        !inv.hedged,
        inv.provider < e.provider_names.len(),
        inv.attempt + reports.len() <= e.max_retries,
        retryable_failures(reports, reports.len() - 1),
    ensures
        ({
            let name = e.provider_names[inv.provider as int];
            let (after, step) = run(e, StepModel::Call(inv), reports);
            &&& same_setup(e, after)
            &&& after.cache == e.cache
            &&& after.inflight == e.inflight
            &&& after.breakers.state_of(name) == after_failures(
                e.breakers.state_of(name),
                report_times(reports),
                e.breakers.failure_threshold,
                e.breakers.cooldown_ms,
            )
        }),
    decreases reports.len(),
{
    let name = e.provider_names[inv.provider as int];
    if reports.len() == 0 {
        assert(report_times(reports).len() == 0);
    } else {
        // Reading the reports from the front, the failures from the back.
        let report = reports[0];
        let rest = reports.drop_first();
        let error = report.result->Err_0;
        assert(report.result == Err::<String, ProviderError>(error));
        let (failed, step) = e.call_completed(inv, report.by_hedge, report.result, report.at);
        e.breakers.theorem_one_breaker_each(name, name, report.at);
        assert(e.name_at(e.winner(inv, report.by_hedge)) == name);
        let next = step->Sleep_0;
        assert(step is Sleep);
        assert forall|i: int| 0 <= i <= rest.len() - 1 && i < rest.len() implies (
        #[trigger] rest[i]).result is Err && !rest[i].result->Err_0.non_retryable() by {
            assert(rest[i] == reports[i + 1]);
        }
        if rest.len() == 0 {
            assert(run(failed, step, rest) == (failed, step));
            assert(run(e, StepModel::Call(inv), reports) == (failed, step));
            assert(report_times(reports).drop_last().len() == 0);
            assert(report_times(reports).last() == report.at);
            assert(after_failures(
                e.breakers.state_of(name),
                report_times(reports).drop_last(),
                e.breakers.failure_threshold,
                e.breakers.cooldown_ms,
            ) == e.breakers.state_of(name));
        } else {
            let (woken, again) = failed.backoff_elapsed(next, rest[0].at);
            let retry = InvocationModel { hedged: false, ..next };
            assert(again == StepModel::Call(retry));
            lemma_failures_reach_breaker(woken, retry, rest);
            assert(run(failed, step, rest) == run(woken, again, rest));
            assert(run(e, StepModel::Call(inv), reports) == run(failed, step, rest));
            lemma_failures_from_front(
                e.breakers.state_of(name),
                report_times(reports),
                e.breakers.failure_threshold,
                e.breakers.cooldown_ms,
            );
            assert(report_times(reports).drop_first() =~= report_times(rest));
            assert(report_times(reports)[0] == report.at);
        }
    }
}

/// Failures in a row may be read from the front as well as from the back.
proof fn lemma_failures_from_front(
    state: CircuitState,
    times: Seq<u64>,
    threshold: u32,
    cooldown_ms: u64,
)
    requires
        times.len() >= 1,
    ensures
        after_failures(state, times, threshold, cooldown_ms)
            == after_failures(
            state.after_failure(threshold, cooldown_ms, times[0]),
            times.drop_first(),
            threshold,
            cooldown_ms,
        ),
    decreases times.len(),
{
    if times.len() == 1 {
        assert(times.drop_last().len() == 0);
        assert(times.drop_first().len() == 0);
        assert(after_failures(state, times.drop_last(), threshold, cooldown_ms)
            == state);
    } else {
        lemma_failures_from_front(state, times.drop_last(), threshold, cooldown_ms);
        assert(times.drop_last().drop_first() =~= times.drop_first().drop_last());
        assert(times.drop_last()[0] == times[0]);
        assert(times.drop_first().last() == times.last());
    }
}

/// The circuit opens at the threshold: where a provider fails as many
/// calls in a row as the threshold asks for, a request that comes before
/// the cooldown after the last failure has elapsed does not call it, and
/// carries the note of the skip.
///
/// This is stated for an engine without hedging, for failures that all
/// fall into one turn of the provider, and for a later request that finds
/// the provider first in line.
pub proof fn theorem_circuit_opens_at_threshold(
    e: EngineModel,
    inv: InvocationModel,
    reports: Seq<Report>,
    later: InvocationModel,
    now: u64,
)
    requires
        !e.hedge_enabled,
        !inv.hedged,
        inv.provider < e.provider_names.len(),
        later.provider == inv.provider,
        reports.len() >= 1,
        reports.len() >= e.breakers.failure_threshold,
        inv.attempt + reports.len() <= e.max_retries,
        retryable_failures(reports, reports.len() - 1),
        now < reports.last().at + e.breakers.cooldown_ms,
    ensures
        ({
            let name = e.provider_names[inv.provider as int];
            let after = run(e, StepModel::Call(inv), reports).0;
            let (skipped, step) = after.advance(later, now);
            &&& after.breakers.state_of(name).is_open(now)
            &&& !after.breakers.allows(name, now)
            &&& match step {
                StepModel::Call(next) => {
                    &&& next.provider > later.provider
                    &&& next.failures[later.failures.len() as int] == circuit_open_text(name)
                },
                StepModel::Done(outcome) => {
                    &&& outcome == Err::<Seq<char>, Seq<char>>(
                        aggregated_failure(
                            notes_after_walk(after, later, after.provider_names.len()),
                        ),
                    )
                    &&& notes_after_walk(
                        after,
                        later,
                        after.provider_names.len(),
                    )[later.failures.len() as int] == circuit_open_text(name)
                },
                _ => false,
            }
        }),
{
    let name = e.provider_names[inv.provider as int];
    lemma_failures_reach_breaker(e, inv, reports);
    let after = run(e, StepModel::Call(inv), reports).0;
    assert(report_times(reports).last() == reports.last().at);
    theorem_opens_at_threshold(
        e.breakers.state_of(name),
        report_times(reports),
        e.breakers.failure_threshold,
        e.breakers.cooldown_ms,
        now,
    );
    theorem_open_breaker_is_skipped(after, later, now);
}

/// Hits never outnumber lookups, whatever step the engine takes, and the
/// step that takes up a request counts exactly one lookup.
pub proof fn theorem_hits_within_lookups(
    e: EngineModel,
    inv: InvocationModel,
    key: Seq<char>,
    received: Option<Result<String, String>>,
    by_hedge: bool,
    result: Result<String, ProviderError>,
    now: u64,
)
    requires
        e.cache_hits <= e.cache_lookups,
    ensures
        e.start(key, now).0.cache_lookups == bump(e.cache_lookups),
        e.start(key, now).0.cache_hits <= e.start(key, now).0.cache_lookups,
        e.leader_outcome(inv, received, now).0.cache_hits <= e.leader_outcome(
            inv,
            received,
            now,
        ).0.cache_lookups,
        e.call_completed(inv, by_hedge, result, now).0.cache_hits <= e.call_completed(
            inv,
            by_hedge,
            result,
            now,
        ).0.cache_lookups,
        e.backoff_elapsed(inv, now).0.cache_hits <= e.backoff_elapsed(inv, now).0.cache_lookups,
{
    lemma_attempt(e, inv, now);
    lemma_advance(e, inv, now);
    let looked = EngineModel {
        cache_lookups: bump(e.cache_lookups),
        cache: e.cache.after_get(now),
        ..e
    };
    let joined = EngineModel { inflight: e.inflight.insert(key), ..looked };
    lemma_advance(joined, e.opening(key), now);
    match result {
        Ok(_) => {},
        Err(error) => {
            lemma_advance(
                e.after_failed_call(inv, by_hedge, error, now),
                InvocationModel { provider: inv.provider + 1, ..e.with_attempt_noted(inv, error) },
                now,
            );
        },
    }
}

/// The calls counted cover the timeouts counted and the call that is under
/// way, if one is; a call counter that has reached its limit covers all.
pub open spec fn calls_cover_timeouts(e: EngineModel, step: StepModel) -> bool {
    ||| e.total_calls == u64::MAX
    ||| e.timeout_count + (if step is Call {
        1nat
    } else {
        0nat
    }) <= e.total_calls
}

/// While the calls of a request come back, the calls counted keep covering
/// the timeouts counted.
proof fn lemma_run_covers_timeouts(e: EngineModel, step: StepModel, reports: Seq<Report>)
    requires
        calls_cover_timeouts(e, step),
    ensures
        calls_cover_timeouts(run(e, step, reports).0, run(e, step, reports).1),
    decreases reports.len(), (if step is Sleep { 1nat } else { 0nat }),
{
    if reports.len() > 0 {
        match step {
            StepModel::Call(inv) => {
                let report = reports[0];
                let next = e.call_completed(inv, report.by_hedge, report.result, report.at);
                match report.result {
                    Ok(_) => {},
                    Err(error) => {
                        lemma_advance(
                            e.after_failed_call(inv, report.by_hedge, error, report.at),
                            InvocationModel {
                                provider: inv.provider + 1,
                                ..e.with_attempt_noted(inv, error)
                            },
                            report.at,
                        );
                    },
                }
                lemma_run_covers_timeouts(next.0, next.1, reports.drop_first());
            },
            StepModel::Sleep(inv, _) => {
                let next = e.backoff_elapsed(inv, reports[0].at);
                lemma_attempt(e, inv, reports[0].at);
                lemma_run_covers_timeouts(next.0, next.1, reports);
            },
            _ => {},
        }
    }
}

/// Timeouts never outnumber calls: on an engine on which they do not, a
/// request that runs alone, from its arrival through every call reported,
/// leaves an engine on which they do not.
pub proof fn theorem_timeouts_within_calls(
    e: EngineModel,
    key: Seq<char>,
    now: u64,
    reports: Seq<Report>,
)
    requires
        e.timeout_count <= e.total_calls,
    ensures
        ({
            let begun = e.start(key, now);
            let ended = run(begun.0, begun.1, reports);
            &&& begun.0.timeout_count <= begun.0.total_calls
            &&& ended.0.timeout_count <= ended.0.total_calls
        }),
{
    let looked = EngineModel {
        cache_lookups: bump(e.cache_lookups),
        cache: e.cache.after_get(now),
        ..e
    };
    let joined = EngineModel { inflight: e.inflight.insert(key), ..looked };
    lemma_advance(joined, e.opening(key), now);
    let begun = e.start(key, now);
    assert(calls_cover_timeouts(begun.0, begun.1));
    lemma_run_covers_timeouts(begun.0, begun.1, reports);
}

/// The notes of the providers passed over on the way from position `from`
/// to the step that follows: up to the provider that is called next, or up
/// to the end of the list where the request has ended.
pub open spec fn notes_on_the_way(e: EngineModel, from: nat, step: StepModel) -> Seq<Seq<char>> {
    let stop = match step {
        StepModel::Call(next) => next.provider,
        _ => e.provider_names.len(),
    };
    if step !is Sleep && from <= stop <= e.provider_names.len() {
        skip_notes(e.provider_names.subrange(from as int, stop as int))
    } else {
        Seq::empty()
    }
}

/// The notes that a request leaves while its calls come back with
/// `reports`: for each failed call, in order, the note of the attempt, and
/// behind it the notes of the providers passed over before the next call.
pub open spec fn notes_left(e: EngineModel, step: StepModel, reports: Seq<Report>) -> Seq<
    Seq<char>,
>
    decreases reports.len(), (if step is Sleep { 1nat } else { 0nat }),
{
    if reports.len() == 0 {
        Seq::empty()
    } else {
        match step {
            StepModel::Call(inv) => {
                let next = e.call_completed(
                    inv,
                    reports[0].by_hedge,
                    reports[0].result,
                    reports[0].at,
                );
                match reports[0].result {
                    Ok(_) => Seq::empty(),
                    Err(error) => seq![
                        attempt_failure_text(
                            e.name_at(inv.provider),
                            inv.attempt,
                            e.max_retries,
                            error.message@,
                        ),
                    ] + notes_on_the_way(e, inv.provider + 1, next.1) + notes_left(
                        next.0,
                        next.1,
                        reports.drop_first(),
                    ),
                }
            },
            StepModel::Sleep(inv, _) => {
                let next = e.backoff_elapsed(inv, reports[0].at);
                notes_left(next.0, next.1, reports)
            },
            _ => Seq::empty(),
        }
    }
}

/// The notes that a step carries.
pub open spec fn notes_so_far(step: StepModel) -> Seq<Seq<char>> {
    match step {
        StepModel::Call(inv) => inv.failures,
        StepModel::Sleep(inv, _) => inv.failures,
        StepModel::Wait(inv) => inv.failures,
        StepModel::Done(_) => Seq::empty(),
    }
}

/// The aggregated error over a whole request: where a request that is
/// calling or waiting to retry ends, after the calls reported, with every
/// provider exhausted, its error is the heading and then, one per line and
/// in the order in which they arose, the notes it carried, one note for
/// each call made and failed, and one for each provider skipped on an open
/// breaker; nothing else.
pub proof fn theorem_error_lists_what_was_tried(
    e: EngineModel,
    step: StepModel,
    reports: Seq<Report>,
    message: Seq<char>,
)
    requires
        step is Call || step is Sleep,
        run(e, step, reports).1 == StepModel::Done(Err::<Seq<char>, Seq<char>>(message)),
    ensures
        message == aggregated_failure(notes_so_far(step) + notes_left(e, step, reports)),
    decreases reports.len(), (if step is Sleep { 1nat } else { 0nat }),
{
    if reports.len() > 0 {
        match step {
            StepModel::Call(inv) => {
                let report = reports[0];
                let rest = reports.drop_first();
                let (after, next) = e.call_completed(
                    inv,
                    report.by_hedge,
                    report.result,
                    report.at,
                );
                match report.result {
                    Ok(_) => {
                        assert(run(after, next, rest) == (after, next));
                    },
                    Err(error) => {
                        theorem_failed_attempt(e, inv, report.by_hedge, error, report.at);
                        let note = attempt_failure_text(
                            e.name_at(inv.provider),
                            inv.attempt,
                            e.max_retries,
                            error.message@,
                        );
                        let way = notes_on_the_way(e, inv.provider + 1, next);
                        let later = notes_left(after, next, rest);
                        assert(notes_left(e, step, reports) == seq![note] + way + later);
                        if next is Done {
                            assert(run(after, next, rest) == (after, next));
                            assert(later =~= Seq::<Seq<char>>::empty());
                            assert(inv.failures + (seq![note] + way + later)
                                =~= inv.failures.push(note) + way);
                        } else {
                            theorem_error_lists_what_was_tried(after, next, rest, message);
                            assert(inv.failures + (seq![note] + way + later) =~= notes_so_far(next)
                                + later);
                        }
                    },
                }
            },
            StepModel::Sleep(inv, _) => {
                let (after, next) = e.backoff_elapsed(inv, reports[0].at);
                lemma_attempt(e, inv, reports[0].at);
                theorem_error_lists_what_was_tried(after, next, reports, message);
            },
            _ => {},
        }
    }
}

/// The notes a request starts with: where a request that leads begins by
/// calling a provider, it carries the notes of the providers it skipped on
/// the way and no other; where it fails at once, its error lists a skip for
/// every provider.
pub proof fn theorem_request_starts_with_skips(e: EngineModel, key: Seq<char>, now: u64)
    requires
        !e.inflight.contains(key),
        e.cache.lookup(key, now) is None,
    ensures
        match e.start(key, now).1 {
            StepModel::Call(first) => first.failures == skip_notes(
                e.provider_names.subrange(0, first.provider as int),
            ),
            StepModel::Done(outcome) => outcome == Err::<Seq<char>, Seq<char>>(
                aggregated_failure(skip_notes(e.provider_names)),
            ),
            _ => false,
        },
{
    let looked = EngineModel {
        cache_lookups: bump(e.cache_lookups),
        cache: e.cache.after_get(now),
        ..e
    };
    let joined = EngineModel { inflight: e.inflight.insert(key), ..looked };
    let opening = e.opening(key);
    lemma_advance(joined, opening, now);
    assert(e.provider_names.subrange(0, e.provider_names.len() as int) =~= e.provider_names);
    assert forall|stop: nat| stop <= e.provider_names.len() implies notes_after_walk(
        joined,
        opening,
        stop,
    ) =~= skip_notes(e.provider_names.subrange(0, stop as int)) by {}
}

/// The engine after each of `followers` has been handed the response that
/// its leader shared.
pub open spec fn after_shares(
    e: EngineModel,
    followers: Seq<InvocationModel>,
    shared: String,
    now: u64,
) -> EngineModel
    decreases followers.len(),
{
    if followers.len() == 0 {
        e
    } else {
        after_shares(e, followers.drop_last(), shared, now).leader_outcome(
            followers.last(),
            Some(Ok(shared)),
            now,
        ).0
    }
}

/// Handing followers a shared response counts no call and no retry.
proof fn lemma_shares_call_nothing(
    e: EngineModel,
    followers: Seq<InvocationModel>,
    shared: String,
    now: u64,
)
    ensures
        after_shares(e, followers, shared, now).total_calls == e.total_calls,
        after_shares(e, followers, shared, now).retry_count == e.retry_count,
    decreases followers.len(),
{
    if followers.len() > 0 {
        lemma_shares_call_nothing(e, followers.drop_last(), shared, now);
    }
}

/// Requests for one fingerprint that arrive while the first of them is
/// under way are answered by one provider call.
///
/// The first request misses the cache and leads; it calls a provider. The
/// requests that arrive at `arrivals` before that call has come back all
/// wait. The call comes back with a response, which ends the leader's
/// request; every follower that is handed that response ends with it too.
/// From the first arrival to the last answer one call is counted, no
/// retry, and at most one coalesced wait for each follower. That a follower is handed what its leader published is the work
/// of the channel between them, which is not part of this model.
pub proof fn theorem_coalesced_requests_make_one_call(
    e: EngineModel,
    key: Seq<char>,
    now: u64,
    arrivals: Seq<u64>,
    by_hedge: bool,
    response: String,
    answered_at: u64,
    followers: Seq<InvocationModel>,
    shared_at: u64,
)
    requires
        e.cache.wf(),
        !e.inflight.contains(key),
        e.cache.lookup(key, now) is None,
        e.start(key, now).1 is Call,
    ensures
        ({
            let (led, first) = e.start(key, now);
            let leader = first->Call_0;
            let joined = after_requests(led, key, arrivals);
            let (answered, last) = joined.call_completed(
                leader,
                by_hedge,
                Ok::<String, ProviderError>(response),
                answered_at,
            );
            let shared = after_shares(answered, followers, response, shared_at);
            &&& forall|i: int|
                0 <= i < arrivals.len() ==> (#[trigger] after_requests(
                    led,
                    key,
                    arrivals.take(i),
                ).start(key, arrivals[i])).1 is Wait
            &&& last == StepModel::Done(Ok(response@))
            &&& forall|e2: EngineModel, inv: InvocationModel|
                (#[trigger] e2.leader_outcome(inv, Some(Ok(response)), shared_at)).1
                    == StepModel::Done(Ok(response@))
            &&& shared.total_calls == bump(e.total_calls)
            &&& shared.retry_count == e.retry_count
            &&& joined.coalesced_wait_count <= e.coalesced_wait_count + arrivals.len()
            &&& !answered.inflight.contains(key)
        }),
{
    let (led, first) = e.start(key, now);
    let leader = first->Call_0;
    theorem_leader_calls_once(e, key, now);
    let looked = EngineModel {
        cache_lookups: bump(e.cache_lookups),
        cache: e.cache.after_get(now),
        ..e
    };
    let entered = EngineModel { inflight: e.inflight.insert(key), ..looked };
    lemma_advance(entered, e.opening(key), now);
    assert(led.cache == e.cache.after_get(now));
    assert(led.retry_count == e.retry_count);
    let joined = after_requests(led, key, arrivals);
    if arrivals.len() > 0 {
        lemma_miss_stays_miss(e.cache, key, now, arrivals[0]);
        theorem_single_flight(led, key, arrivals);
        lemma_requests_count_no_retry(led, key, arrivals);
    }
    let (answered, last) = joined.call_completed(
        leader,
        by_hedge,
        Ok::<String, ProviderError>(response),
        answered_at,
    );
    lemma_shares_call_nothing(answered, followers, response, shared_at);
}

/// Requests that wait count no retry, and one coalesced wait each.
proof fn lemma_requests_count_no_retry(e: EngineModel, key: Seq<char>, times: Seq<u64>)
    requires
        e.cache.wf(),
        e.inflight.contains(key),
        times.len() >= 1,
        e.cache.lookup(key, times[0]) is None,
    ensures
        after_requests(e, key, times).retry_count == e.retry_count,
        after_requests(e, key, times).coalesced_wait_count <= e.coalesced_wait_count
            + times.len(),
        e.coalesced_wait_count + times.len() <= u64::MAX ==> after_requests(
            e,
            key,
            times,
        ).coalesced_wait_count == e.coalesced_wait_count + times.len(),
    decreases times.len(),
{
    let earlier = times.drop_last();
    let before = after_requests(e, key, earlier);
    if earlier.len() == 0 {
        assert(before == e);
        theorem_follower_waits(e, key, times[0]);
    } else {
        lemma_requests_count_no_retry(e, key, earlier);
        lemma_requests_miss(e, key, earlier, times.last());
        theorem_follower_waits(before, key, times.last());
    }
}

} // verus!
