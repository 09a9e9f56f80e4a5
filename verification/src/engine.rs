//! The reliable invocation engine: cache, single-flight, circuit breakers,
//! retry with backoff, fallback and hedging around an ordered list of
//! providers.
//!
//! The engine decides; its caller acts. Every operation takes the reading
//! of a monotonic clock in milliseconds, such as [`ReliableProvider::now`]
//! gives, and returns the [`Step`] that the caller is to carry out: wait
//! for a leader, call a provider, sleep, or hand the outcome back. What the
//! engine does is stated over its mathematical model, [`EngineModel`], and
//! holds for every clock reading.

use crate::cache::{CacheModel, ResponseCache};
use crate::circuit::{BreakersModel, CircuitBreakers};
use crate::classify::ProviderError;
use crate::clock::Clock;
use crate::fingerprint::{
    cache_key_chat, cache_key_history, chat_key, context_fingerprint, context_text, history_json,
    history_key, ChatMessage,
};
use crate::inflight::{publish, InflightRegistry};
use crate::model::{
    aggregated_failure, attempt_failure_text, circuit_open_text, EngineModel, InvocationModel,
    StepModel,
};
use crate::settings::{clamp_backoff, first_backoff, grow_backoff, EngineSettings};
use crate::stats::{bumped, ReliableProviderStats};
use crate::text::{append_decimal, join, views};
use tokio::sync::broadcast::{Receiver, Sender};
use vstd::prelude::*;
use vstd::string::StringExecFns;

verus! {

/// A wrapper of an ordered list of providers that adds a response cache,
/// request coalescing, circuit breakers, retries, fallback and hedging.
pub struct ReliableProvider {
    provider_names: Vec<String>,
    max_retries: u32,
    base_backoff_ms: u64,
    hedge_enabled: bool,
    hedge_delay_ms: u64,
    cache_context_fingerprint: String,
    circuit_breakers: CircuitBreakers,
    response_cache: ResponseCache,
    inflight: InflightRegistry,
    total_calls: u64,
    retry_count: u64,
    timeout_count: u64,
    cache_hits: u64,
    cache_lookups: u64,
    coalesced_wait_count: u64,
    hedge_launch_count: u64,
    hedge_win_count: u64,
    clock: Clock,
}

impl View for ReliableProvider {
    type V = EngineModel;

    closed spec fn view(&self) -> EngineModel {
        EngineModel {
            provider_names: views(self.provider_names@),
            max_retries: self.max_retries,
            base_backoff_ms: self.base_backoff_ms,
            hedge_enabled: self.hedge_enabled,
            hedge_delay_ms: self.hedge_delay_ms,
            context: self.cache_context_fingerprint@,
            breakers: self.circuit_breakers@,
            cache: self.response_cache@,
            inflight: self.inflight@,
            total_calls: self.total_calls,
            retry_count: self.retry_count,
            timeout_count: self.timeout_count,
            cache_hits: self.cache_hits,
            cache_lookups: self.cache_lookups,
            coalesced_wait_count: self.coalesced_wait_count,
            hedge_launch_count: self.hedge_launch_count,
            hedge_win_count: self.hedge_win_count,
        }
    }
}

/// The progress of one request through the engine.
pub struct Invocation {
    key: String,
    publisher: Sender<Result<String, String>>,
    provider: usize,
    attempt: u32,
    backoff_ms: u64,
    hedged: bool,
    failures: Vec<String>,
}

impl View for Invocation {
    type V = InvocationModel;

    closed spec fn view(&self) -> InvocationModel {
        InvocationModel {
            key: self.key@,
            provider: self.provider as nat,
            attempt: self.attempt,
            backoff_ms: self.backoff_ms,
            hedged: self.hedged,
            failures: views(self.failures@),
        }
    }
}

/// What the caller of the engine is to do next for a request.
pub enum Step {
    /// The request has ended: hand the response, or the aggregated error,
    /// to whoever made it.
    Done(Result<String, String>),
    /// Wait for one item on the subscription, then report it with
    /// [`ReliableProvider::leader_outcome`].
    Wait(Invocation, Receiver<Result<String, String>>),
    /// Call the provider at [`Invocation::provider`]; if the invocation has
    /// a [`Invocation::hedge_provider`], race it, after the engine's hedge
    /// delay, against that provider. Report the first result with
    /// [`ReliableProvider::call_completed`].
    Call(Invocation),
    /// Sleep for the given number of milliseconds, then report with
    /// [`ReliableProvider::backoff_elapsed`].
    Sleep(Invocation, u64),
}

impl View for Step {
    type V = StepModel;

    open spec fn view(&self) -> StepModel {
        match self {
            Step::Done(Ok(response)) => StepModel::Done(Ok(response@)),
            Step::Done(Err(error)) => StepModel::Done(Err(error@)),
            Step::Wait(inv, _) => StepModel::Wait(inv@),
            Step::Call(inv) => StepModel::Call(inv@),
            Step::Sleep(inv, millis) => StepModel::Sleep(inv@, *millis),
        }
    }
}

impl Invocation {
    /// The request's fingerprint.
    pub fn key(&self) -> (key: &str)
        ensures
            key@ == self@.key,
    {
        self.key.as_str()
    }

    /// The position, in the engine's list, of the provider whose turn it is.
    pub fn provider(&self) -> (position: usize)
        ensures
            position == self@.provider,
    {
        self.provider
    }

    /// The position of the provider to hedge the current attempt with, if
    /// the attempt is hedged.
    pub fn hedge_provider(&self) -> (position: Option<usize>)
        ensures
            position == if self@.hedged && self@.provider < usize::MAX {
                Some((self@.provider + 1) as usize)
            } else {
                None
            },
    {
        if self.hedged && self.provider < usize::MAX {
            Some(self.provider + 1)
        } else {
            None
        }
    }

    /// The attempts already made on the current provider in this turn.
    pub fn attempt(&self) -> (attempt: u32)
        ensures
            attempt == self@.attempt,
    {
        self.attempt
    }
}

/// Writes the note for a provider skipped on an open breaker.
pub fn circuit_open_note(name: &str) -> (note: String)
    ensures
        note@ == circuit_open_text(name@),
{
    let mut note = String::new();
    note.append(name);
    note.append(": circuit open");
    assert(note@ =~= circuit_open_text(name@));
    note
}

/// Writes the note for a failed attempt.
pub fn attempt_failure_note(name: &str, attempt: u32, max_retries: u32, message: &str) -> (note:
    String)
    ensures
        note@ == attempt_failure_text(name@, attempt, max_retries, message@),
{
    let mut note = String::new();
    note.append(name);
    note.append(" attempt ");
    append_decimal(&mut note, attempt as u64 + 1);
    note.append("/");
    append_decimal(&mut note, max_retries as u64 + 1);
    note.append(": ");
    note.append(message);
    assert(note@ =~= attempt_failure_text(name@, attempt, max_retries, message@));
    note
}

/// Writes the error of a request on which every provider failed.
pub fn aggregate_failures(failures: &Vec<String>) -> (message: String)
    ensures
        message@ == aggregated_failure(views(failures@)),
{
    let lines = join(failures, "\n");
    let mut message = String::new();
    message.append("All providers failed. Attempts:\n");
    message.append(lines.as_str());
    assert(message@ =~= aggregated_failure(views(failures@)));
    message
}

impl ReliableProvider {
    /// An engine over the providers named, in their order.
    ///
    /// Each provider gets `max_retries + 1` attempts per turn. The first
    /// wait between two attempts is `base_backoff_ms`, raised to 50 where it
    /// is less. Everything else comes from `settings`. The cache, the
    /// breakers and the registry start empty and every counter at zero.
    pub fn new(
        provider_names: Vec<String>,
        max_retries: u32,
        base_backoff_ms: u64,
        settings: &EngineSettings,
    ) -> (engine: Self)
        ensures
            engine@ == (EngineModel {
                provider_names: views(provider_names@),
                max_retries,
                base_backoff_ms: first_backoff(base_backoff_ms),
                hedge_enabled: settings.resolved().hedge_enabled,
                hedge_delay_ms: settings.resolved().hedge_delay_ms,
                context: context_text(views(provider_names@), *settings),
                breakers: BreakersModel {
                    failure_threshold: settings.resolved().failure_threshold,
                    cooldown_ms: settings.resolved().cooldown_ms,
                    states: Map::empty(),
                    open_count: 0,
                    half_open_count: 0,
                    close_count: 0,
                },
                cache: CacheModel::empty(
                    settings.resolved().cache_ttl_secs,
                    settings.resolved().cache_max_entries,
                ),
                inflight: Set::empty(),
                total_calls: 0,
                retry_count: 0,
                timeout_count: 0,
                cache_hits: 0,
                cache_lookups: 0,
                coalesced_wait_count: 0,
                hedge_launch_count: 0,
                hedge_win_count: 0,
            }),
    {
        let config = settings.resolve();
        let context = context_fingerprint(&provider_names, settings);
        ReliableProvider {
            provider_names,
            max_retries,
            base_backoff_ms: clamp_backoff(base_backoff_ms),
            hedge_enabled: config.hedge_enabled,
            hedge_delay_ms: config.hedge_delay_ms,
            cache_context_fingerprint: context,
            circuit_breakers: CircuitBreakers::new(config.failure_threshold, config.cooldown_ms),
            response_cache: ResponseCache::new(config.cache_ttl_secs, config.cache_max_entries),
            inflight: InflightRegistry::new(),
            total_calls: 0,
            retry_count: 0,
            timeout_count: 0,
            cache_hits: 0,
            cache_lookups: 0,
            coalesced_wait_count: 0,
            hedge_launch_count: 0,
            hedge_win_count: 0,
            clock: Clock::start(),
        }
    }

    /// The reading of the engine's clock: the milliseconds since the
    /// engine was built. This is the reading to hand to the engine's
    /// operations as `now`.
    pub fn now(&self) -> (reading: u64) {
        self.clock.now()
    }

    /// The counters as they stand.
    pub fn stats_snapshot(&self) -> (stats: ReliableProviderStats)
        ensures
            stats == self@.stats(),
    {
        let (circuit_open_count, circuit_half_open_count, circuit_close_count) =
            self.circuit_breakers.metrics_snapshot();
        ReliableProviderStats {
            total_calls: self.total_calls,
            retry_count: self.retry_count,
            timeout_count: self.timeout_count,
            cache_hits: self.cache_hits,
            cache_lookups: self.cache_lookups,
            coalesced_wait_count: self.coalesced_wait_count,
            hedge_launch_count: self.hedge_launch_count,
            hedge_win_count: self.hedge_win_count,
            circuit_open_count,
            circuit_half_open_count,
            circuit_close_count,
        }
    }

    /// The number of responses in the cache, which never exceeds the
    /// cache's capacity.
    pub fn cache_len(&self) -> (n: usize)
        ensures
            n == self@.cache.entries.len(),
            n <= self@.cache.max_entries,
    {
        self.response_cache.len()
    }

    /// The number of providers.
    pub fn provider_count(&self) -> (n: usize)
        ensures
            n == self@.provider_names.len(),
    {
        self.provider_names.len()
    }

    /// How long a hedge call is held back, in milliseconds.
    pub fn hedge_delay_ms(&self) -> (millis: u64)
        ensures
            millis == self@.hedge_delay_ms,
    {
        self.hedge_delay_ms
    }

    /// The fixed part of every fingerprint of this engine.
    pub fn cache_context_fingerprint(&self) -> (context: &str)
        ensures
            context@ == self@.context,
    {
        self.cache_context_fingerprint.as_str()
    }

    /// The name of the provider at `position`, empty past the end.
    fn name_at(&self, position: usize) -> (name: String)
        ensures
            name@ == self@.name_at(position as nat),
    {
        if position < self.provider_names.len() {
            self.provider_names[position].clone()
        } else {
            String::new()
        }
    }

    /// The name of the provider behind the one at `position`, empty past
    /// the end.
    fn name_after(&self, position: usize) -> (name: String)
        ensures
            name@ == self@.name_at((position + 1) as nat),
    {
        if position < self.provider_names.len() && position + 1 < self.provider_names.len() {
            self.provider_names[position + 1].clone()
        } else {
            String::new()
        }
    }

    /// Ends the flight of a request on which every provider failed.
    fn give_up(&mut self, inv: Invocation) -> (step: Step)
        ensures
            (final(self)@, step@) == old(self)@.give_up(inv@),
    {
        let message = aggregate_failures(&inv.failures);
        publish(&inv.publisher, Err(message.clone()));
        self.inflight.complete(inv.key.as_str());
        Step::Done(Err(message))
    }

    /// Counts and prepares one attempt on the provider whose turn it is.
    fn attempt(&mut self, inv: Invocation, now: u64) -> (step: Step)
        ensures
            (final(self)@, step@) == old(self)@.attempt(inv@, now),
    {
        let mut inv = inv;
        self.total_calls = bumped(self.total_calls);
        inv.hedged = false;
        if self.hedge_enabled && inv.attempt == 0 && inv.provider < self.provider_names.len()
            && inv.provider + 1 < self.provider_names.len() {
            let hedge = self.name_after(inv.provider);
            if self.circuit_breakers.allows_call(hedge.as_str(), now) {
                self.hedge_launch_count = bumped(self.hedge_launch_count);
                inv.hedged = true;
            }
        }
        Step::Call(inv)
    }

    /// Walks the providers from the one whose turn it is.
    fn advance(&mut self, invocation: Invocation, now: u64) -> (step: Step)
        ensures
            (final(self)@, step@) == old(self)@.advance(invocation@, now),
    {
        let ghost first = invocation@;
        let mut inv = invocation;
        while inv.provider < self.provider_names.len()
            invariant
                self@.advance(inv@, now) == old(self)@.advance(first, now),
                first == invocation@,
            decreases self.provider_names.len() - inv.provider,
        {
            let ghost before = inv@;
            let name = self.name_at(inv.provider);
            if self.circuit_breakers.allows_call(name.as_str(), now) {
                inv.attempt = 0;
                inv.backoff_ms = self.base_backoff_ms;
                return self.attempt(inv, now);
            }
            let note = circuit_open_note(name.as_str());
            inv.failures.push(note);
            inv.provider = inv.provider + 1;
            assert(inv@.failures =~= before.failures.push(circuit_open_text(name@)));
        }
        self.give_up(inv)
    }

    /// Takes up a request by its fingerprint, at clock reading `now`.
    ///
    /// The cache is read first, which counts as a lookup and, where it
    /// finds the response, as a hit that ends the request. On a miss the
    /// request joins the flight of `key`: behind a leader it waits, which
    /// counts as a coalesced wait; as the leader it walks the providers.
    pub fn start(&mut self, key: String, now: u64) -> (step: Step)
        ensures
            (final(self)@, step@) == old(self)@.start(key@, now),
    {
        self.cache_lookups = bumped(self.cache_lookups);
        match self.response_cache.get(key.as_str(), now) {
            Some(hit) => {
                self.cache_hits = bumped(self.cache_hits);
                Step::Done(Ok(hit))
            },
            None => {
                let (is_leader, publisher, subscription) = self.inflight.subscribe_or_create(
                    key.as_str(),
                );
                let inv = Invocation {
                    key,
                    publisher,
                    provider: 0,
                    attempt: 0,
                    backoff_ms: self.base_backoff_ms,
                    hedged: false,
                    failures: Vec::new(),
                };
                assert(inv@.failures =~= Seq::empty());
                if !is_leader {
                    self.coalesced_wait_count = bumped(self.coalesced_wait_count);
                    match subscription {
                        Some(receiver) => Step::Wait(inv, receiver),
                        None => self.advance(inv, now),
                    }
                } else {
                    self.advance(inv, now)
                }
            },
        }
    }

    /// Takes up a single-turn request at clock reading `now`.
    ///
    /// `temperature` is the sampling temperature written with four
    /// decimals. The request is taken up under its fingerprint, as
    /// [`ReliableProvider::start`] describes.
    pub fn chat_with_system(
        &mut self,
        system_prompt: Option<&str>,
        message: &str,
        model: &str,
        temperature: &str,
        now: u64,
    ) -> (step: Step)
        ensures
            (final(self)@, step@) == old(self)@.start(
                chat_key(
                    match system_prompt {
                        Some(s) => s@,
                        None => Seq::empty(),
                    },
                    message@,
                    model@,
                    temperature@,
                    old(self)@.context,
                ),
                now,
            ),
    {
        let key = cache_key_chat(
            system_prompt,
            message,
            model,
            temperature,
            self.cache_context_fingerprint.as_str(),
        );
        self.start(key, now)
    }

    /// Takes up a request with a conversation at clock reading `now`.
    ///
    /// `temperature` is the sampling temperature written with four
    /// decimals. The request is taken up under its fingerprint, as
    /// [`ReliableProvider::start`] describes.
    pub fn chat_with_history(
        &mut self,
        messages: &Vec<ChatMessage>,
        model: &str,
        temperature: &str,
        now: u64,
    ) -> (step: Step)
        ensures
            (final(self)@, step@) == old(self)@.start(
                history_key(history_json(messages@), model@, temperature@, old(self)@.context),
                now,
            ),
    {
        let key = cache_key_history(
            messages,
            model,
            temperature,
            self.cache_context_fingerprint.as_str(),
        );
        self.start(key, now)
    }

    /// Reports to a waiting follower what came of its wait: the item
    /// received, or `None` where the channel closed or fell behind.
    ///
    /// A response is cached and ends the request. A published failure, or
    /// none at all, is not shared: the follower walks the providers itself.
    pub fn leader_outcome(
        &mut self,
        inv: Invocation,
        received: Option<Result<String, String>>,
        now: u64,
    ) -> (step: Step)
        ensures
            (final(self)@, step@) == old(self)@.leader_outcome(inv@, received, now),
    {
        match received {
            Some(Ok(shared)) => {
                self.response_cache.put(inv.key.clone(), shared.clone(), now);
                Step::Done(Ok(shared))
            },
            _ => self.advance(inv, now),
        }
    }

    /// Reports the result of the call that [`Step::Call`] asked for;
    /// `by_hedge` tells whether the hedge produced it.
    ///
    /// A response is credited to the breaker of the provider that produced
    /// it, cached, published to the followers, and ends the flight and the
    /// request. A failure is noted, counted as a timeout if it is one, and
    /// charged to the breaker of the provider that produced it; then the
    /// request waits and retries, or, after a non-retryable failure or the
    /// last attempt, moves on to the next provider.
    pub fn call_completed(
        &mut self,
        inv: Invocation,
        by_hedge: bool,
        result: Result<String, ProviderError>,
        now: u64,
    ) -> (step: Step)
        ensures
            (final(self)@, step@) == old(self)@.call_completed(inv@, by_hedge, result, now),
    {
        let mut inv = inv;
        let hedge_won = inv.hedged && by_hedge;
        let winner = if hedge_won {
            self.name_after(inv.provider)
        } else {
            self.name_at(inv.provider)
        };
        if hedge_won {
            self.hedge_win_count = bumped(self.hedge_win_count);
        }
        match result {
            Ok(response) => {
                self.circuit_breakers.record_success(winner.as_str());
                self.response_cache.put(inv.key.clone(), response.clone(), now);
                publish(&inv.publisher, Ok(response.clone()));
                self.inflight.complete(inv.key.as_str());
                Step::Done(Ok(response))
            },
            Err(error) => {
                let non_retryable = error.is_non_retryable();
                if error.is_timeout() {
                    self.timeout_count = bumped(self.timeout_count);
                }
                let ghost before = inv@;
                let name = self.name_at(inv.provider);
                let note = attempt_failure_note(
                    name.as_str(),
                    inv.attempt,
                    self.max_retries,
                    error.message.as_str(),
                );
                inv.failures.push(note);
                assert(inv@.failures =~= before.failures.push(
                    attempt_failure_text(
                        name@,
                        before.attempt,
                        self.max_retries,
                        error.message@,
                    ),
                ));
                self.circuit_breakers.record_failure(winner.as_str(), now);
                if non_retryable || inv.attempt >= self.max_retries {
                    if inv.provider < usize::MAX {
                        inv.provider = inv.provider + 1;
                        self.advance(inv, now)
                    } else {
                        assert(self.provider_names.len() == self@.provider_names.len());
                        self.give_up(inv)
                    }
                } else {
                    self.retry_count = bumped(self.retry_count);
                    let millis = inv.backoff_ms;
                    inv.attempt = inv.attempt + 1;
                    inv.backoff_ms = grow_backoff(inv.backoff_ms);
                    Step::Sleep(inv, millis)
                }
            },
        }
    }

    /// Reports that the wait that [`Step::Sleep`] asked for is over: the
    /// next attempt on the same provider begins.
    pub fn backoff_elapsed(&mut self, inv: Invocation, now: u64) -> (step: Step)
        ensures
            (final(self)@, step@) == old(self)@.backoff_elapsed(inv@, now),
    {
        self.attempt(inv, now)
    }
}

} // verus!
