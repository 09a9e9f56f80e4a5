use reliable_provider::settings::{
    clamp_backoff, grow_backoff, read_flag, read_number, EngineConfig, EngineSettings,
};

fn text(s: &str) -> Option<String> {
    Some(s.to_string())
}

#[test]
fn defaults_stand_without_overrides() {
    let config = EngineSettings::none().resolve();
    assert_eq!(
        config,
        EngineConfig {
            failure_threshold: 3,
            cooldown_ms: 30_000,
            cache_ttl_secs: 120,
            cache_max_entries: 256,
            hedge_enabled: false,
            hedge_delay_ms: 120,
        }
    );
}

#[test]
fn overrides_are_taken_where_they_read_as_numbers() {
    let mut s = EngineSettings::none();
    s.cb_failure_threshold = text("5");
    s.cb_cooldown_ms = text("250");
    s.cache_ttl_secs = text("300");
    s.cache_max_entries = text("128");
    s.hedge_enabled = text("true");
    s.hedge_delay_ms = text("0");
    assert_eq!(
        s.resolve(),
        EngineConfig {
            failure_threshold: 5,
            cooldown_ms: 250,
            cache_ttl_secs: 300,
            cache_max_entries: 128,
            hedge_enabled: true,
            hedge_delay_ms: 0,
        }
    );
}

#[test]
fn overrides_below_the_minimum_count_as_absent() {
    let mut s = EngineSettings::none();
    s.cb_failure_threshold = text("0");
    s.cb_cooldown_ms = text("249");
    let config = s.resolve();
    assert_eq!(config.failure_threshold, 3);
    assert_eq!(config.cooldown_ms, 30_000);
}

#[test]
fn overrides_that_do_not_read_count_as_absent() {
    let mut s = EngineSettings::none();
    s.cb_failure_threshold = text("three");
    s.cb_cooldown_ms = text("-500");
    s.cache_ttl_secs = text("");
    s.cache_max_entries = text("12 ");
    s.hedge_delay_ms = text("1.5");
    s.hedge_enabled = text("True");
    let config = s.resolve();
    assert_eq!(config, EngineSettings::none().resolve());
}

#[test]
fn threshold_above_its_width_counts_as_absent() {
    let mut s = EngineSettings::none();
    s.cb_failure_threshold = text("4294967295");
    assert_eq!(s.resolve().failure_threshold, u32::MAX);
    s.cb_failure_threshold = text("4294967296");
    assert_eq!(s.resolve().failure_threshold, 3);
}

#[test]
fn zero_switches_the_cache_off() {
    let mut s = EngineSettings::none();
    s.cache_ttl_secs = text("0");
    assert_eq!(s.resolve().cache_ttl_secs, 0);
    let mut s = EngineSettings::none();
    s.cache_max_entries = text("0");
    assert_eq!(s.resolve().cache_max_entries, 0);
}

#[test]
fn hedging_is_switched_on_by_five_texts() {
    for on in ["1", "true", "TRUE", "yes", "on"] {
        assert!(read_flag(&text(on)), "{}", on);
    }
    for off in ["0", "false", "True", "YES", "On", "ON", "", " true", "y", "enabled"] {
        assert!(!read_flag(&text(off)), "{:?}", off);
    }
    assert!(!read_flag(&None));
}

#[test]
fn read_number_applies_minimum_maximum_and_default() {
    assert_eq!(read_number(&None, 1, 10, 7), 7);
    assert_eq!(read_number(&text("1"), 1, 10, 7), 1);
    assert_eq!(read_number(&text("10"), 1, 10, 7), 10);
    assert_eq!(read_number(&text("0"), 1, 10, 7), 7);
    assert_eq!(read_number(&text("11"), 1, 10, 7), 7);
    assert_eq!(read_number(&text("+3"), 1, 10, 7), 3);
}

#[test]
fn backoff_starts_at_fifty_at_least() {
    assert_eq!(clamp_backoff(0), 50);
    assert_eq!(clamp_backoff(1), 50);
    assert_eq!(clamp_backoff(49), 50);
    assert_eq!(clamp_backoff(50), 50);
    assert_eq!(clamp_backoff(51), 51);
    assert_eq!(clamp_backoff(20_000), 20_000);
}

#[test]
fn backoff_doubles_up_to_ten_seconds() {
    assert_eq!(grow_backoff(50), 100);
    assert_eq!(grow_backoff(100), 200);
    assert_eq!(grow_backoff(4999), 9998);
    assert_eq!(grow_backoff(5000), 10_000);
    assert_eq!(grow_backoff(5001), 10_000);
    assert_eq!(grow_backoff(10_000), 10_000);
    assert_eq!(grow_backoff(20_000), 10_000);
    assert_eq!(grow_backoff(u64::MAX), 10_000);
    assert_eq!(grow_backoff(0), 0);
}
