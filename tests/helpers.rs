use std::cell::Cell;

use keyr::agent::{AgentConfig, ConfigError, HubConfig as AgentHubConfig, LocalConfig, Output};
use keyr::hub_config::{DatabaseConfig, HttpConfig, HubConfig};
use keyr::retry::{transaction_retry, RetryError, RetryPolicy, TxError};

fn policy(max_attempts: u32) -> RetryPolicy {
    RetryPolicy { max_attempts, base_delay_ms: 10, max_delay_ms: 100 }
}

#[test]
fn backoff_doubles_up_to_the_cap() {
    let p = policy(5);
    assert_eq!(p.backoff(0), 10);
    assert_eq!(p.backoff(1), 20);
    assert_eq!(p.backoff(3), 80);
    assert_eq!(p.backoff(4), 100);
    assert_eq!(p.backoff(40), 100);
    let big = RetryPolicy { max_attempts: 1, base_delay_ms: u64::MAX / 2 + 1, max_delay_ms: u64::MAX };
    assert_eq!(big.backoff(3), u64::MAX);
}

#[test]
fn pause_stays_within_the_window() {
    let p = policy(5);
    assert_eq!(p.pause(1, 0), 10);
    assert_eq!(p.pause(1, 10), 20);
    assert_eq!(p.pause(1, 11), 10);
    assert_eq!(p.pause(4, 7), 57);
}

#[test]
fn retry_until_unlocked() {
    let calls = Cell::new(0u32);
    let waits = Cell::new(0u32);
    let r: Result<u32, RetryError<&str>> = transaction_retry(
        &policy(5),
        |attempt| {
            assert_eq!(attempt, calls.get());
            calls.set(calls.get() + 1);
            if calls.get() < 3 { Err(TxError::Locked) } else { Ok(42) }
        },
        |attempt, d| {
            assert_eq!(d, RetryPolicy { max_attempts: 5, base_delay_ms: 10, max_delay_ms: 100 }.pause(attempt, 3));
            waits.set(waits.get() + 1);
        },
        |_| 3,
    );
    assert!(matches!(r, Ok(42)));
    assert_eq!(calls.get(), 3);
    assert_eq!(waits.get(), 2);
}

#[test]
fn retry_gives_up_on_contention() {
    let calls = Cell::new(0u32);
    let r: Result<(), RetryError<&str>> =
        transaction_retry(&policy(4), |_| { calls.set(calls.get() + 1); Err(TxError::Locked) }, |_, _| {}, |_| 0);
    assert!(matches!(r, Err(RetryError::Contention)));
    assert_eq!(calls.get(), 4);
    let calls0 = Cell::new(0u32);
    let r: Result<(), RetryError<&str>> =
        transaction_retry(&policy(0), |_| { calls0.set(calls0.get() + 1); Err(TxError::Locked) }, |_, _| {}, |_| 0);
    assert!(matches!(r, Err(RetryError::Contention)));
    assert_eq!(calls0.get(), 1);
}

#[test]
fn retry_stops_on_other_errors() {
    let calls = Cell::new(0u32);
    let r: Result<(), RetryError<&str>> =
        transaction_retry(&policy(4), |_| { calls.set(calls.get() + 1); Err(TxError::Failed("schema")) }, |_, _| {}, |_| 0);
    assert!(matches!(r, Err(RetryError::Failed("schema"))));
    assert_eq!(calls.get(), 1);
}

#[test]
fn database_url_with_and_without_password() {
    let mut c = HubConfig {
        http: HttpConfig { port: 8080, url: "localhost".to_string() },
        database: DatabaseConfig { user: "keyr".to_string(), password: Some("pw".to_string()), url: "db/keyr".to_string() },
    };
    assert_eq!(c.database_url(), "postgres://keyr:pw@db/keyr");
    c.database.password = None;
    assert_eq!(c.database_url(), "postgres://keyr:@db/keyr");
}

#[test]
fn agent_config_parts() {
    let d = AgentConfig::default();
    assert_eq!(d.hub_config().unwrap_err(), ConfigError::MissingHubConfig);
    assert!(d.local().is_none());
    let hub = AgentHubConfig { hub_url: "http://hub".to_string(), api_token: "tok".to_string() };
    let c = AgentConfig::new(Some(LocalConfig { database_path: "/tmp/db".to_string() }), Some(hub));
    let h = c.hub_config().unwrap();
    assert_eq!(h.hub_url, "http://hub");
    assert_eq!(h.api_token, "tok");
    assert_eq!(c.local().unwrap().database_path, "/tmp/db");
}

#[test]
fn output_from_template() {
    assert!(matches!(Output::from_template(None), Output::Json));
    assert!(matches!(Output::from_template(Some("{x}")), Output::Template("{x}")));
}
