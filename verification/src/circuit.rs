//! The per-provider circuit breaker: a closed / open / half-open state
//! machine over consecutive failures and a cooldown deadline.

use crate::stats::{bump, bumped};
use vstd::hash_map::StringHashMap;
use vstd::prelude::*;

verus! {

/// Health record of one upstream provider.
///
/// Times are readings, in milliseconds, of a clock that never runs
/// backwards. `open_until` is the reading from which the provider is
/// admitted again; it is wide enough to hold any reading plus any cooldown.
#[derive(Clone, Copy, Debug, PartialEq, Eq)]
pub struct CircuitState {
    pub consecutive_failures: u32,
    pub open_until: Option<u128>,
}

/// How a breaker answers a request for admission.
#[derive(Clone, Copy, Debug, PartialEq, Eq, Structural)]
pub enum Admission {
    /// The breaker is closed: the call goes ahead.
    Admitted,
    /// The cooldown of an open breaker has elapsed: the breaker forgets its
    /// failures and the call goes ahead.
    HalfOpened,
    /// The breaker is open: the provider is skipped.
    Refused,
}

impl CircuitState {
    /// The state of a provider with no failure on record.
    pub open spec fn fresh() -> Self {
        CircuitState { consecutive_failures: 0, open_until: None }
    }

    /// The breaker is open at `now`: a deadline is set and not yet reached.
    pub open spec fn is_open(self, now: u64) -> bool {
        self.open_until matches Some(until) && now < until
    }

    /// The answer to a request for admission at `now`.
    pub open spec fn admission(self, now: u64) -> Admission {
        match self.open_until {
            None => Admission::Admitted,
            Some(until) => if now < until {
                Admission::Refused
            } else {
                Admission::HalfOpened
            },
        }
    }

    /// The state after a request for admission at `now`.
    pub open spec fn after_admission(self, now: u64) -> Self {
        if self.admission(now) == Admission::HalfOpened {
            Self::fresh()
        } else {
            self
        }
    }

    /// A success on this state closes a breaker that was open or counting.
    pub open spec fn closes_on_success(self) -> bool {
        self.open_until is Some || self.consecutive_failures > 0
    }

    /// The failure count after one more failure.
    pub open spec fn failures_after_failure(self) -> u32 {
        if self.consecutive_failures < u32::MAX {
            (self.consecutive_failures + 1) as u32
        } else {
            u32::MAX
        }
    }

    /// The state after a failure at `now`.
    pub open spec fn after_failure(self, threshold: u32, cooldown_ms: u64, now: u64) -> Self {
        CircuitState {
            consecutive_failures: self.failures_after_failure(),
            open_until: if self.failures_after_failure() >= threshold {
                Some((now + cooldown_ms) as u128)
            } else {
                self.open_until
            },
        }
    }

    /// A failure at `now` opens a breaker that was not open at `now`.
    pub open spec fn opens_on_failure(self, threshold: u32, now: u64) -> bool {
        self.failures_after_failure() >= threshold && !self.is_open(now)
    }

    /// The state of a provider with no failure on record.
    pub fn healthy() -> (s: Self)
        ensures
            s == Self::fresh(),
    {
        CircuitState { consecutive_failures: 0, open_until: None }
    }

    /// Asks for admission at `now`. An elapsed cooldown resets the state.
    pub fn request_admission(&mut self, now: u64) -> (a: Admission)
        ensures
            a == old(self).admission(now),
            *final(self) == old(self).after_admission(now),
    {
        match self.open_until {
            None => Admission::Admitted,
            Some(until) => {
                if (now as u128) < until {
                    Admission::Refused
                } else {
                    self.open_until = None;
                    self.consecutive_failures = 0;
                    Admission::HalfOpened
                }
            },
        }
    }

    /// Records a success. Returns whether this closed the breaker.
    pub fn succeed(&mut self) -> (closed: bool)
        ensures
            closed == old(self).closes_on_success(),
            *final(self) == Self::fresh(),
    {
        let closed = self.open_until.is_some() || self.consecutive_failures > 0;
        self.consecutive_failures = 0;
        self.open_until = None;
        closed
    }

    /// Records a failure at `now`. Returns whether this opened the breaker.
    pub fn fail(&mut self, threshold: u32, cooldown_ms: u64, now: u64) -> (opened: bool)
        ensures
            opened == old(self).opens_on_failure(threshold, now),
            *final(self) == old(self).after_failure(threshold, cooldown_ms, now),
    {
        self.consecutive_failures = self.consecutive_failures.saturating_add(1);
        if self.consecutive_failures >= threshold {
            let was_open = match self.open_until {
                Some(until) => (now as u128) < until,
                None => false,
            };
            self.open_until = Some(now as u128 + cooldown_ms as u128);
            !was_open
        } else {
            false
        }
    }
}

/// What a table of breakers holds, as mathematics.
#[verifier::ext_equal]
pub struct BreakersModel {
    pub failure_threshold: u32,
    pub cooldown_ms: u64,
    pub states: Map<Seq<char>, CircuitState>,
    pub open_count: u64,
    pub half_open_count: u64,
    pub close_count: u64,
}

impl BreakersModel {
    /// The state on record for `name`; a provider never seen is healthy.
    pub open spec fn state_of(self, name: Seq<char>) -> CircuitState {
        if self.states.contains_key(name) {
            self.states[name]
        } else {
            CircuitState::fresh()
        }
    }

    /// Whether `name` is admitted at `now`.
    pub open spec fn allows(self, name: Seq<char>, now: u64) -> bool {
        self.state_of(name).admission(now) != Admission::Refused
    }

    /// The table after a request for admission of `name` at `now`.
    pub open spec fn after_allows_call(self, name: Seq<char>, now: u64) -> Self {
        BreakersModel {
            states: self.states.insert(name, self.state_of(name).after_admission(now)),
            half_open_count: if self.state_of(name).admission(now) == Admission::HalfOpened {
                bump(self.half_open_count)
            } else {
                self.half_open_count
            },
            ..self
        }
    }

    /// The table after a success of `name`.
    pub open spec fn after_success(self, name: Seq<char>) -> Self {
        BreakersModel {
            states: self.states.insert(name, CircuitState::fresh()),
            close_count: if self.state_of(name).closes_on_success() {
                bump(self.close_count)
            } else {
                self.close_count
            },
            ..self
        }
    }

    /// The table after a failure of `name` at `now`.
    pub open spec fn after_failure(self, name: Seq<char>, now: u64) -> Self {
        BreakersModel {
            states: self.states.insert(
                name,
                self.state_of(name).after_failure(self.failure_threshold, self.cooldown_ms, now),
            ),
            open_count: if self.state_of(name).opens_on_failure(self.failure_threshold, now) {
                bump(self.open_count)
            } else {
                self.open_count
            },
            ..self
        }
    }
}

/// The state after failures at the clock readings `times`, in that order
/// and with nothing between them.
pub open spec fn after_failures(
    state: CircuitState,
    times: Seq<u64>,
    threshold: u32,
    cooldown_ms: u64,
) -> CircuitState
    decreases times.len(),
{
    if times.len() == 0 {
        state
    } else {
        after_failures(state, times.drop_last(), threshold, cooldown_ms).after_failure(
            threshold,
            cooldown_ms,
            times.last(),
        )
    }
}

/// Failures in a row are all counted, up to the counter's limit.
pub proof fn lemma_failures_counted(
    state: CircuitState,
    times: Seq<u64>,
    threshold: u32,
    cooldown_ms: u64,
)
    ensures
        after_failures(state, times, threshold, cooldown_ms).consecutive_failures == if
            state.consecutive_failures + times.len() < u32::MAX {
            state.consecutive_failures + times.len()
        } else {
            u32::MAX as int
        },
    decreases times.len(),
{
    if times.len() > 0 {
        lemma_failures_counted(state, times.drop_last(), threshold, cooldown_ms);
    }
}

/// As many failures in a row as the threshold asks for, and at least one,
/// open the breaker, whatever its state was: it is then open until the
/// cooldown after the last failure has elapsed, and refuses every request
/// for admission before that.
pub proof fn theorem_opens_at_threshold(
    state: CircuitState,
    times: Seq<u64>,
    threshold: u32,
    cooldown_ms: u64,
    now: u64,
)
    requires
        times.len() >= 1,
        times.len() >= threshold,
    ensures
        after_failures(state, times, threshold, cooldown_ms).open_until == Some(
            (times.last() + cooldown_ms) as u128,
        ),
        now < times.last() + cooldown_ms ==> after_failures(
            state,
            times,
            threshold,
            cooldown_ms,
        ).admission(now) == Admission::Refused,
{
    lemma_failures_counted(state, times.drop_last(), threshold, cooldown_ms);
}

/// Once the cooldown of an open breaker has elapsed, a request for
/// admission half-opens it: the call is let through and the failures are
/// forgotten, so that the breaker is closed again and admits whatever
/// comes. A success then finds nothing to close. A failure then counts as
/// the first, and reopens the breaker only under a threshold of at most
/// one.
pub proof fn theorem_half_open(
    state: CircuitState,
    threshold: u32,
    cooldown_ms: u64,
    now: u64,
    later: u64,
)
    requires
        state.open_until matches Some(until) && now >= until,
    ensures
        state.admission(now) == Admission::HalfOpened,
        state.after_admission(now) == CircuitState::fresh(),
        state.after_admission(now).admission(later) == Admission::Admitted,
        !state.after_admission(now).closes_on_success(),
        state.after_admission(now).after_failure(threshold, cooldown_ms, later)
            == (CircuitState {
            consecutive_failures: 1,
            open_until: if threshold <= 1 {
                Some((later + cooldown_ms) as u128)
            } else {
                None
            },
        }),
{
}

impl BreakersModel {
    /// The table does for each provider what the breaker's state machine
    /// prescribes, counts what it prescribes, and leaves every other
    /// provider alone.
    pub proof fn theorem_one_breaker_each(self, name: Seq<char>, other: Seq<char>, now: u64)
        ensures
            self.after_allows_call(name, now).state_of(name) == self.state_of(name).after_admission(
                now,
            ),
            self.after_success(name).state_of(name) == CircuitState::fresh(),
            self.after_failure(name, now).state_of(name) == self.state_of(name).after_failure(
                self.failure_threshold,
                self.cooldown_ms,
                now,
            ),
            other != name ==> self.after_allows_call(name, now).state_of(other) == self.state_of(
                other,
            ),
            other != name ==> self.after_success(name).state_of(other) == self.state_of(other),
            other != name ==> self.after_failure(name, now).state_of(other) == self.state_of(
                other,
            ),
    {
    }

    /// The failure that takes a closed breaker to the threshold opens it:
    /// the failures on record are then as many as the threshold, the
    /// breaker is open until the cooldown after that failure has elapsed,
    /// the opening is counted, and the provider is refused at every reading
    /// before that.
    pub proof fn theorem_failure_at_threshold_opens(self, name: Seq<char>, now: u64, later: u64)
        requires
            self.failure_threshold >= 1,
            self.state_of(name).open_until is None,
            self.state_of(name).consecutive_failures + 1 == self.failure_threshold,
        ensures
            ({
                let after = self.after_failure(name, now);
                &&& after.state_of(name).consecutive_failures == self.failure_threshold
                &&& after.state_of(name).open_until == Some((now + self.cooldown_ms) as u128)
                &&& after.open_count == bump(self.open_count)
                &&& self.open_count < u64::MAX ==> after.open_count == self.open_count + 1
                &&& after.half_open_count == self.half_open_count
                &&& after.close_count == self.close_count
                &&& later < now + self.cooldown_ms ==> !after.allows(name, later)
            }),
    {
    }

    /// A request for admission after the cooldown of an open breaker has
    /// elapsed is granted: the transition is counted as a half-open one and
    /// as nothing else, the breaker forgets its deadline and its failures,
    /// and the breakers of all other providers stay as they are.
    pub proof fn theorem_elapsed_cooldown_half_opens(
        self,
        name: Seq<char>,
        other: Seq<char>,
        now: u64,
    )
        requires
            self.state_of(name).open_until matches Some(until) && now >= until,
        ensures
            ({
                let after = self.after_allows_call(name, now);
                &&& self.allows(name, now)
                &&& after.half_open_count == bump(self.half_open_count)
                &&& self.half_open_count < u64::MAX ==> after.half_open_count
                    == self.half_open_count + 1
                &&& after.state_of(name) == CircuitState::fresh()
                &&& after.open_count == self.open_count
                &&& after.close_count == self.close_count
                &&& other != name ==> after.state_of(other) == self.state_of(other)
            }),
    {
    }

    /// A provider whose breaker is open is refused; one whose cooldown has
    /// elapsed is let through, which is counted as a half-open transition
    /// and leaves the breaker closed.
    pub proof fn theorem_admission(self, name: Seq<char>, now: u64)
        ensures
            self.allows(name, now) == !self.state_of(name).is_open(now),
            !self.allows(name, now) ==> self.after_allows_call(name, now).state_of(name)
                == self.state_of(name),
            self.state_of(name).open_until is Some && self.allows(name, now) ==> {
                &&& self.after_allows_call(name, now).half_open_count == bump(self.half_open_count)
                &&& self.after_allows_call(name, now).state_of(name) == CircuitState::fresh()
            },
            self.state_of(name).open_until is None ==> self.after_allows_call(
                name,
                now,
            ).half_open_count == self.half_open_count,
    {
    }
}

/// The breakers of all providers, by provider name, with their counters.
pub struct CircuitBreakers {
    failure_threshold: u32,
    cooldown_ms: u64,
    states: StringHashMap<CircuitState>,
    open_count: u64,
    half_open_count: u64,
    close_count: u64,
}

impl View for CircuitBreakers {
    type V = BreakersModel;

    closed spec fn view(&self) -> BreakersModel {
        BreakersModel {
            failure_threshold: self.failure_threshold,
            cooldown_ms: self.cooldown_ms,
            states: self.states@,
            open_count: self.open_count,
            half_open_count: self.half_open_count,
            close_count: self.close_count,
        }
    }
}

impl CircuitBreakers {
    /// An empty table: every provider is healthy and every counter zero.
    pub fn new(failure_threshold: u32, cooldown_ms: u64) -> (b: Self)
        ensures
            b@ == (BreakersModel {
                failure_threshold,
                cooldown_ms,
                states: Map::empty(),
                open_count: 0,
                half_open_count: 0,
                close_count: 0,
            }),
    {
        CircuitBreakers {
            failure_threshold,
            cooldown_ms,
            states: StringHashMap::new(),
            open_count: 0,
            half_open_count: 0,
            close_count: 0,
        }
    }

    /// The state on record for `provider_name`.
    fn state(&self, provider_name: &str) -> (s: CircuitState)
        ensures
            s == self@.state_of(provider_name@),
    {
        match self.states.get(provider_name) {
            Some(s) => *s,
            None => CircuitState::healthy(),
        }
    }

    /// Tells whether `provider_name` may be called at `now`.
    ///
    /// A closed breaker admits. An open breaker refuses until its deadline;
    /// from the deadline on it half-opens: it admits, forgets its failures
    /// and is counted in `half_open_count`.
    pub fn allows_call(&mut self, provider_name: &str, now: u64) -> (allowed: bool)
        ensures
            allowed == old(self)@.allows(provider_name@, now),
            final(self)@ == old(self)@.after_allows_call(provider_name@, now),
    {
        let mut state = self.state(provider_name);
        let admission = state.request_admission(now);
        self.states.insert(provider_name.to_owned(), state);
        match admission {
            Admission::Admitted => true,
            Admission::HalfOpened => {
                self.half_open_count = bumped(self.half_open_count);
                true
            },
            Admission::Refused => false,
        }
    }

    /// Records a success of `provider_name`: its breaker closes and forgets
    /// its failures. Counted in `close_count` if the breaker was open or had
    /// failures on record.
    pub fn record_success(&mut self, provider_name: &str)
        ensures
            final(self)@ == old(self)@.after_success(provider_name@),
    {
        let mut state = self.state(provider_name);
        let closed = state.succeed();
        self.states.insert(provider_name.to_owned(), state);
        if closed {
            self.close_count = bumped(self.close_count);
        }
    }

    /// Records a failure of `provider_name` at `now`. Once the consecutive
    /// failures reach the threshold, the breaker is open until `now` plus
    /// the cooldown. Counted in `open_count` if the breaker was not open at
    /// `now`.
    pub fn record_failure(&mut self, provider_name: &str, now: u64)
        ensures
            final(self)@ == old(self)@.after_failure(provider_name@, now),
    {
        let mut state = self.state(provider_name);
        let opened = state.fail(self.failure_threshold, self.cooldown_ms, now);
        self.states.insert(provider_name.to_owned(), state);
        if opened {
            self.open_count = bumped(self.open_count);
        }
    }

    /// The counters `(open_count, half_open_count, close_count)`.
    pub fn metrics_snapshot(&self) -> (m: (u64, u64, u64))
        ensures
            m == (self@.open_count, self@.half_open_count, self@.close_count),
    {
        (self.open_count, self.half_open_count, self.close_count)
    }
}

} // verus!
