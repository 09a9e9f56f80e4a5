//! Engine settings: optional textual overrides, as an environment would
//! supply them, and the rules that turn them into a configuration.

use crate::text::{parse_unsigned, parsed_unsigned};
use vstd::prelude::*;

verus! {

pub const DEFAULT_FAILURE_THRESHOLD: u32 = 3;

pub const MIN_FAILURE_THRESHOLD: u32 = 1;

pub const DEFAULT_COOLDOWN_MS: u64 = 30000;

pub const MIN_COOLDOWN_MS: u64 = 250;

pub const DEFAULT_CACHE_TTL_SECS: u64 = 120;

pub const DEFAULT_CACHE_MAX_ENTRIES: usize = 256;

pub const DEFAULT_HEDGE_DELAY_MS: u64 = 120;

pub const MIN_BACKOFF_MS: u64 = 50;

pub const MAX_BACKOFF_MS: u64 = 10000;

/// Optional overrides of the engine's defaults, each as the text that was
/// supplied for it. An override that does not read as a number of its
/// kind, or lies below the minimum of its setting, counts as absent.
pub struct EngineSettings {
    /// Consecutive failures that open a breaker; at least 1.
    pub cb_failure_threshold: Option<String>,
    /// How long a breaker stays open, in milliseconds; at least 250.
    pub cb_cooldown_ms: Option<String>,
    /// Lifetime of a cache entry in seconds; 0 switches the cache off.
    pub cache_ttl_secs: Option<String>,
    /// Capacity of the cache; 0 switches the cache off.
    pub cache_max_entries: Option<String>,
    /// Hedging is on for `1`, `true`, `TRUE`, `yes` and `on`.
    pub hedge_enabled: Option<String>,
    /// Delay before a hedge call is launched, in milliseconds.
    pub hedge_delay_ms: Option<String>,
    pub tool_schema_hash: Option<String>,
    pub provider_base_url: Option<String>,
    pub provider_id: Option<String>,
    pub system_prompt_version: Option<String>,
    pub provider_auth_style: Option<String>,
    pub provider_top_p: Option<String>,
    pub provider_max_tokens: Option<String>,
    pub provider_cache_context: Option<String>,
}

/// The numeric and boolean part of an engine's configuration.
#[derive(Clone, Copy, Debug, PartialEq, Eq, Structural)]
pub struct EngineConfig {
    pub failure_threshold: u32,
    pub cooldown_ms: u64,
    pub cache_ttl_secs: u64,
    pub cache_max_entries: usize,
    pub hedge_enabled: bool,
    pub hedge_delay_ms: u64,
}

/// The view of an optional text.
pub open spec fn text_of(value: Option<String>) -> Option<Seq<char>> {
    match value {
        Some(text) => Some(text@),
        None => None,
    }
}

/// An optional text, with the empty text for an absent one.
pub open spec fn text_or_empty(value: Option<String>) -> Seq<char> {
    match value {
        Some(text) => text@,
        None => Seq::empty(),
    }
}

/// The number that an override supplies: it must read as an unsigned
/// decimal number between `min` and `max`; otherwise `default` stands.
pub open spec fn number_from(value: Option<Seq<char>>, min: u64, max: u64, default: u64) -> u64 {
    match value {
        Some(text) => match parsed_unsigned(text, max) {
            Some(n) => if n >= min {
                n
            } else {
                default
            },
            None => default,
        },
        None => default,
    }
}

/// The texts that switch a flag on.
pub open spec fn switches_on(text: Seq<char>) -> bool {
    text == "1"@ || text == "true"@ || text == "TRUE"@ || text == "yes"@ || text == "on"@
}

/// The flag that an override supplies; an absent one leaves it off.
pub open spec fn flag_from(value: Option<Seq<char>>) -> bool {
    match value {
        Some(text) => switches_on(text),
        None => false,
    }
}

/// The first backoff of a retry sequence: the configured base, raised to
/// the minimum.
pub open spec fn first_backoff(base_backoff_ms: u64) -> u64 {
    if base_backoff_ms < MIN_BACKOFF_MS {
        MIN_BACKOFF_MS
    } else {
        base_backoff_ms
    }
}

/// The backoff that follows `backoff_ms`: twice as long, capped.
pub open spec fn next_backoff(backoff_ms: u64) -> u64 {
    if backoff_ms * 2 < MAX_BACKOFF_MS {
        (backoff_ms * 2) as u64
    } else {
        MAX_BACKOFF_MS
    }
}

/// Computes the backoff that follows `backoff_ms`.
pub fn grow_backoff(backoff_ms: u64) -> (next: u64)
    ensures
        next == next_backoff(backoff_ms),
        next <= MAX_BACKOFF_MS,
{
    if backoff_ms < MAX_BACKOFF_MS / 2 {
        backoff_ms * 2
    } else {
        MAX_BACKOFF_MS
    }
}

/// Raises a configured base backoff to the minimum.
pub fn clamp_backoff(base_backoff_ms: u64) -> (first: u64)
    ensures
        first == first_backoff(base_backoff_ms),
        first >= MIN_BACKOFF_MS,
{
    if base_backoff_ms < MIN_BACKOFF_MS {
        MIN_BACKOFF_MS
    } else {
        base_backoff_ms
    }
}

/// Reads the number that an override supplies.
pub fn read_number(value: &Option<String>, min: u64, max: u64, default: u64) -> (n: u64)
    ensures
        n == number_from(text_of(*value), min, max, default),
{
    match value {
        Some(text) => match parse_unsigned(text.as_str(), max) {
            Some(n) => if n >= min {
                n
            } else {
                default
            },
            None => default,
        },
        None => default,
    }
}

/// Reads the flag that an override supplies.
pub fn read_flag(value: &Option<String>) -> (on: bool)
    ensures
        on == flag_from(text_of(*value)),
{
    match value {
        Some(text) => {
            let one = "1".to_owned();
            let lower = "true".to_owned();
            let upper = "TRUE".to_owned();
            let yes = "yes".to_owned();
            let on = "on".to_owned();
            *text == one || *text == lower || *text == upper || *text == yes || *text == on
        },
        None => false,
    }
}

impl EngineSettings {
    /// The configuration that these settings make.
    pub open spec fn resolved(&self) -> EngineConfig {
        EngineConfig {
            failure_threshold: number_from(
                text_of(self.cb_failure_threshold),
                MIN_FAILURE_THRESHOLD as u64,
                u32::MAX as u64,
                DEFAULT_FAILURE_THRESHOLD as u64,
            ) as u32,
            cooldown_ms: number_from(
                text_of(self.cb_cooldown_ms),
                MIN_COOLDOWN_MS,
                u64::MAX,
                DEFAULT_COOLDOWN_MS,
            ),
            cache_ttl_secs: number_from(
                text_of(self.cache_ttl_secs),
                0,
                u64::MAX,
                DEFAULT_CACHE_TTL_SECS,
            ),
            cache_max_entries: number_from(
                text_of(self.cache_max_entries),
                0,
                usize::MAX as u64,
                DEFAULT_CACHE_MAX_ENTRIES as u64,
            ) as usize,
            hedge_enabled: flag_from(text_of(self.hedge_enabled)),
            hedge_delay_ms: number_from(
                text_of(self.hedge_delay_ms),
                0,
                u64::MAX,
                DEFAULT_HEDGE_DELAY_MS,
            ),
        }
    }

    /// Settings without any override.
    pub fn none() -> (s: Self)
        ensures
            s.cb_failure_threshold is None,
            s.cb_cooldown_ms is None,
            s.cache_ttl_secs is None,
            s.cache_max_entries is None,
            s.hedge_enabled is None,
            s.hedge_delay_ms is None,
            s.tool_schema_hash is None,
            s.provider_base_url is None,
            s.provider_id is None,
            s.system_prompt_version is None,
            s.provider_auth_style is None,
            s.provider_top_p is None,
            s.provider_max_tokens is None,
            s.provider_cache_context is None,
    {
        EngineSettings {
            cb_failure_threshold: None,
            cb_cooldown_ms: None,
            cache_ttl_secs: None,
            cache_max_entries: None,
            hedge_enabled: None,
            hedge_delay_ms: None,
            tool_schema_hash: None,
            provider_base_url: None,
            provider_id: None,
            system_prompt_version: None,
            provider_auth_style: None,
            provider_top_p: None,
            provider_max_tokens: None,
            provider_cache_context: None,
        }
    }

    /// Works out the configuration: each override that reads as a number
    /// of its kind and respects the minimum of its setting, and the default
    /// in place of every other.
    pub fn resolve(&self) -> (c: EngineConfig)
        ensures
            c == self.resolved(),
            c.failure_threshold >= MIN_FAILURE_THRESHOLD,
            c.cooldown_ms >= MIN_COOLDOWN_MS,
    {
        let threshold = read_number(
            &self.cb_failure_threshold,
            MIN_FAILURE_THRESHOLD as u64,
            u32::MAX as u64,
            DEFAULT_FAILURE_THRESHOLD as u64,
        );
        let max_entries = read_number(
            &self.cache_max_entries,
            0,
            usize::MAX as u64,
            DEFAULT_CACHE_MAX_ENTRIES as u64,
        );
        EngineConfig {
            failure_threshold: threshold as u32,
            cooldown_ms: read_number(
                &self.cb_cooldown_ms,
                MIN_COOLDOWN_MS,
                u64::MAX,
                DEFAULT_COOLDOWN_MS,
            ),
            cache_ttl_secs: read_number(&self.cache_ttl_secs, 0, u64::MAX, DEFAULT_CACHE_TTL_SECS),
            cache_max_entries: max_entries as usize,
            hedge_enabled: read_flag(&self.hedge_enabled),
            hedge_delay_ms: read_number(&self.hedge_delay_ms, 0, u64::MAX, DEFAULT_HEDGE_DELAY_MS),
        }
    }
}

} // verus!
