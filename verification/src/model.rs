//! The invocation pipeline as mathematics: what each step of a request
//! does to the engine and which step follows.

use crate::cache::CacheModel;
use crate::circuit::BreakersModel;
use crate::classify::ProviderError;
use crate::settings::next_backoff;
use crate::stats::{bump, ReliableProviderStats};
use crate::text::{decimal_text, joined};
use vstd::prelude::*;

verus! {

/// The note left for a provider that was skipped on an open breaker.
pub open spec fn circuit_open_text(name: Seq<char>) -> Seq<char> {
    name + ": circuit open"@
}

/// The note left for a failed attempt: the provider, the attempt counted
/// from one, the number of attempts a provider gets, and the failure.
pub open spec fn attempt_failure_text(
    name: Seq<char>,
    attempt: u32,
    max_retries: u32,
    message: Seq<char>,
) -> Seq<char> {
    name + " attempt "@ + decimal_text((attempt + 1) as nat) + "/"@ + decimal_text(
        (max_retries + 1) as nat,
    ) + ": "@ + message
}

/// The error of a request on which every provider failed: a heading, then
/// the notes in the order in which they were left, one per line.
pub open spec fn aggregated_failure(failures: Seq<Seq<char>>) -> Seq<char> {
    "All providers failed. Attempts:\n"@ + joined(failures, "\n"@)
}

/// The progress of one request.
pub struct InvocationModel {
    /// The request's fingerprint.
    pub key: Seq<char>,
    /// The position of the provider whose turn it is.
    pub provider: nat,
    /// The attempts already made in this turn.
    pub attempt: u32,
    /// How long to wait before the next attempt, in milliseconds.
    pub backoff_ms: u64,
    /// Whether the attempt under way is hedged with the next provider.
    pub hedged: bool,
    /// The notes on providers skipped and attempts failed so far.
    pub failures: Seq<Seq<char>>,
}

/// What a request does next.
pub enum StepModel {
    /// The request has ended, with a response or with the aggregated error.
    Done(Result<Seq<char>, Seq<char>>),
    /// Wait for the outcome that the leader of this fingerprint publishes.
    Wait(InvocationModel),
    /// Call the provider whose turn it is, hedged or not.
    Call(InvocationModel),
    /// Wait the given number of milliseconds, then attempt again.
    Sleep(InvocationModel, u64),
}

/// What an engine holds, as mathematics.
#[verifier::ext_equal]
pub struct EngineModel {
    pub provider_names: Seq<Seq<char>>,
    pub max_retries: u32,
    pub base_backoff_ms: u64,
    pub hedge_enabled: bool,
    pub hedge_delay_ms: u64,
    pub context: Seq<char>,
    pub breakers: BreakersModel,
    pub cache: CacheModel,
    pub inflight: Set<Seq<char>>,
    pub total_calls: u64,
    pub retry_count: u64,
    pub timeout_count: u64,
    pub cache_hits: u64,
    pub cache_lookups: u64,
    pub coalesced_wait_count: u64,
    pub hedge_launch_count: u64,
    pub hedge_win_count: u64,
}

impl EngineModel {
    /// The counters, as a snapshot.
    pub open spec fn stats(self) -> ReliableProviderStats {
        ReliableProviderStats {
            total_calls: self.total_calls,
            retry_count: self.retry_count,
            timeout_count: self.timeout_count,
            cache_hits: self.cache_hits,
            cache_lookups: self.cache_lookups,
            coalesced_wait_count: self.coalesced_wait_count,
            hedge_launch_count: self.hedge_launch_count,
            hedge_win_count: self.hedge_win_count,
            circuit_open_count: self.breakers.open_count,
            circuit_half_open_count: self.breakers.half_open_count,
            circuit_close_count: self.breakers.close_count,
        }
    }

    /// The name of the provider at `position`; past the end of the list,
    /// the empty name.
    pub open spec fn name_at(self, position: nat) -> Seq<char> {
        if position < self.provider_names.len() {
            self.provider_names[position as int]
        } else {
            Seq::empty()
        }
    }

    /// A request as it stands before its first provider.
    pub open spec fn opening(self, key: Seq<char>) -> InvocationModel {
        InvocationModel {
            key,
            provider: 0,
            attempt: 0,
            backoff_ms: self.base_backoff_ms,
            hedged: false,
            failures: Seq::empty(),
        }
    }

    /// Every provider is exhausted: the flight ends and the request fails
    /// with the aggregated error.
    pub open spec fn give_up(self, inv: InvocationModel) -> (EngineModel, StepModel) {
        (
            EngineModel { inflight: self.inflight.remove(inv.key), ..self },
            StepModel::Done(Err(aggregated_failure(inv.failures))),
        )
    }

    /// One attempt on the provider whose turn it is. The first attempt of a
    /// turn is hedged where hedging is on, a next provider exists and that
    /// provider's breaker admits a call.
    pub open spec fn attempt(self, inv: InvocationModel, now: u64) -> (EngineModel, StepModel) {
        let counted = EngineModel { total_calls: bump(self.total_calls), ..self };
        if self.hedge_enabled && inv.attempt == 0 && inv.provider + 1 < self.provider_names.len() {
            let hedge = self.name_at(inv.provider + 1);
            let asked = EngineModel {
                breakers: self.breakers.after_allows_call(hedge, now),
                ..counted
            };
            if self.breakers.allows(hedge, now) {
                (
                    EngineModel { hedge_launch_count: bump(self.hedge_launch_count), ..asked },
                    StepModel::Call(InvocationModel { hedged: true, ..inv }),
                )
            } else {
                (asked, StepModel::Call(InvocationModel { hedged: false, ..inv }))
            }
        } else {
            (counted, StepModel::Call(InvocationModel { hedged: false, ..inv }))
        }
    }

    /// The walk over the providers from the one whose turn it is: a
    /// provider whose breaker is open is skipped with a note; the first
    /// that is admitted gets its first attempt; past the last, the request
    /// gives up.
    pub open spec fn advance(self, inv: InvocationModel, now: u64) -> (EngineModel, StepModel)
        decreases self.provider_names.len() - inv.provider,
    {
        if inv.provider >= self.provider_names.len() {
            self.give_up(inv)
        } else {
            let name = self.provider_names[inv.provider as int];
            let asked = EngineModel { breakers: self.breakers.after_allows_call(name, now), ..self };
            if self.breakers.allows(name, now) {
                asked.attempt(
                    InvocationModel { attempt: 0, backoff_ms: self.base_backoff_ms, ..inv },
                    now,
                )
            } else {
                asked.advance(
                    InvocationModel {
                        provider: inv.provider + 1,
                        failures: inv.failures.push(circuit_open_text(name)),
                        ..inv
                    },
                    now,
                )
            }
        }
    }

    /// A request for `key` arrives at `now`: a cached response ends it at
    /// once; otherwise it joins the flight of its fingerprint as a follower,
    /// or leads it and walks the providers.
    pub open spec fn start(self, key: Seq<char>, now: u64) -> (EngineModel, StepModel) {
        let looked = EngineModel {
            cache_lookups: bump(self.cache_lookups),
            cache: self.cache.after_get(now),
            ..self
        };
        match self.cache.lookup(key, now) {
            Some(hit) => (
                EngineModel { cache_hits: bump(self.cache_hits), ..looked },
                StepModel::Done(Ok(hit)),
            ),
            None => {
                let joined = EngineModel { inflight: self.inflight.insert(key), ..looked };
                if self.inflight.contains(key) {
                    (
                        EngineModel {
                            coalesced_wait_count: bump(self.coalesced_wait_count),
                            ..joined
                        },
                        StepModel::Wait(self.opening(key)),
                    )
                } else {
                    joined.advance(self.opening(key), now)
                }
            },
        }
    }

    /// A follower has the leader's outcome, or learns that none will come.
    /// A response is cached and ends the request; anything else makes the
    /// follower walk the providers itself.
    pub open spec fn leader_outcome(
        self,
        inv: InvocationModel,
        received: Option<Result<String, String>>,
        now: u64,
    ) -> (EngineModel, StepModel) {
        match received {
            Some(Ok(shared)) => (
                EngineModel { cache: self.cache.after_put(inv.key, shared@, now), ..self },
                StepModel::Done(Ok(shared@)),
            ),
            _ => self.advance(inv, now),
        }
    }

    /// The position of the provider that produced the result of a call.
    pub open spec fn winner(self, inv: InvocationModel, by_hedge: bool) -> nat {
        if inv.hedged && by_hedge {
            inv.provider + 1
        } else {
            inv.provider
        }
    }

    /// The engine after the failure of a call has been counted: as a win of
    /// the hedge where the hedge produced it, as a timeout where it is one,
    /// and against the breaker of the provider that produced it.
    pub open spec fn after_failed_call(
        self,
        inv: InvocationModel,
        by_hedge: bool,
        error: ProviderError,
        now: u64,
    ) -> EngineModel {
        EngineModel {
            hedge_win_count: if inv.hedged && by_hedge {
                bump(self.hedge_win_count)
            } else {
                self.hedge_win_count
            },
            timeout_count: if error.timed_out() {
                bump(self.timeout_count)
            } else {
                self.timeout_count
            },
            breakers: self.breakers.after_failure(self.name_at(self.winner(inv, by_hedge)), now),
            ..self
        }
    }

    /// The request after a failed attempt has left its note. The note names
    /// the provider whose turn it is.
    pub open spec fn with_attempt_noted(
        self,
        inv: InvocationModel,
        error: ProviderError,
    ) -> InvocationModel {
        InvocationModel {
            failures: inv.failures.push(
                attempt_failure_text(
                    self.name_at(inv.provider),
                    inv.attempt,
                    self.max_retries,
                    error.message@,
                ),
            ),
            ..inv
        }
    }

    /// A call has come back at `now`, from the hedge if `by_hedge`.
    ///
    /// A response closes the winner's breaker, is cached, ends the flight
    /// and the request. A failure leaves a note, counts against the
    /// winner's breaker, and is followed by a wait and another attempt, or,
    /// where it is non-retryable or the attempts are used up, by the next
    /// provider.
    pub open spec fn call_completed(
        self,
        inv: InvocationModel,
        by_hedge: bool,
        result: Result<String, ProviderError>,
        now: u64,
    ) -> (EngineModel, StepModel) {
        match result {
            Ok(response) => (
                EngineModel {
                    hedge_win_count: if inv.hedged && by_hedge {
                        bump(self.hedge_win_count)
                    } else {
                        self.hedge_win_count
                    },
                    breakers: self.breakers.after_success(
                        self.name_at(self.winner(inv, by_hedge)),
                    ),
                    cache: self.cache.after_put(inv.key, response@, now),
                    inflight: self.inflight.remove(inv.key),
                    ..self
                },
                StepModel::Done(Ok(response@)),
            ),
            Err(error) => {
                let failed = self.after_failed_call(inv, by_hedge, error, now);
                let noted = self.with_attempt_noted(inv, error);
                if error.non_retryable() || inv.attempt >= self.max_retries {
                    failed.advance(InvocationModel { provider: inv.provider + 1, ..noted }, now)
                } else {
                    (
                        EngineModel { retry_count: bump(self.retry_count), ..failed },
                        StepModel::Sleep(
                            InvocationModel {
                                attempt: (inv.attempt + 1) as u32,
                                backoff_ms: next_backoff(inv.backoff_ms),
                                ..noted
                            },
                            inv.backoff_ms,
                        ),
                    )
                }
            },
        }
    }

    /// The wait before a retry is over: the next attempt begins.
    pub open spec fn backoff_elapsed(self, inv: InvocationModel, now: u64) -> (
        EngineModel,
        StepModel,
    ) {
        self.attempt(inv, now)
    }
}

/// The result of one provider call as it is reported to the engine.
pub struct Report {
    /// Whether the hedge produced the result.
    pub by_hedge: bool,
    /// The response, or the failure.
    pub result: Result<String, ProviderError>,
    /// The clock reading at which the result is reported.
    pub at: u64,
}

/// Where a request stands after its calls have come back with `reports`,
/// one after the other: each call that is asked for gets the next report,
/// and a wait before a retry ends when the report of that retry is due.
/// The request stops where it ends, where it waits for a leader, or where
/// the reports run out.
pub open spec fn run(e: EngineModel, step: StepModel, reports: Seq<Report>) -> (
    EngineModel,
    StepModel,
)
    decreases reports.len(), (if step is Sleep { 1nat } else { 0nat }),
{
    if reports.len() == 0 {
        (e, step)
    } else {
        match step {
            StepModel::Call(inv) => {
                let next = e.call_completed(
                    inv,
                    reports[0].by_hedge,
                    reports[0].result,
                    reports[0].at,
                );
                run(next.0, next.1, reports.drop_first())
            },
            StepModel::Sleep(inv, _) => {
                let next = e.backoff_elapsed(inv, reports[0].at);
                run(next.0, next.1, reports)
            },
            _ => (e, step),
        }
    }
}

/// The providers that a request calls while its calls come back with
/// `reports`: for each report, in order, the position of the provider whose
/// turn it was when the call was made. A hedged call counts for the
/// provider whose turn it is.
pub open spec fn providers_called(e: EngineModel, step: StepModel, reports: Seq<Report>) -> Seq<
    nat,
>
    decreases reports.len(), (if step is Sleep { 1nat } else { 0nat }),
{
    if reports.len() == 0 {
        Seq::empty()
    } else {
        match step {
            StepModel::Call(inv) => {
                let next = e.call_completed(
                    inv,
                    reports[0].by_hedge,
                    reports[0].result,
                    reports[0].at,
                );
                seq![inv.provider] + providers_called(next.0, next.1, reports.drop_first())
            },
            StepModel::Sleep(inv, _) => {
                let next = e.backoff_elapsed(inv, reports[0].at);
                providers_called(next.0, next.1, reports)
            },
            _ => Seq::empty(),
        }
    }
}

} // verus!
