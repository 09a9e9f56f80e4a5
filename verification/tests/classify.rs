use reliable_provider::classify::{
    client_error_is_final, find_client_status, is_non_retryable, is_timeout_error, ProviderError,
};

#[test]
fn non_retryable_detects_common_patterns() {
    assert!(is_non_retryable(&anyhow::Error::msg("400 Bad Request")));
    assert!(is_non_retryable(&anyhow::Error::msg("401 Unauthorized")));
    assert!(is_non_retryable(&anyhow::Error::msg("403 Forbidden")));
    assert!(is_non_retryable(&anyhow::Error::msg("404 Not Found")));
    assert!(is_non_retryable(&anyhow::Error::msg(
        "API error with 400 Bad Request"
    )));
    assert!(!is_non_retryable(&anyhow::Error::msg("429 Too Many Requests")));
    assert!(!is_non_retryable(&anyhow::Error::msg("408 Request Timeout")));
    assert!(!is_non_retryable(&anyhow::Error::msg(
        "500 Internal Server Error"
    )));
    assert!(!is_non_retryable(&anyhow::Error::msg("502 Bad Gateway")));
    assert!(!is_non_retryable(&anyhow::Error::msg("timeout")));
    assert!(!is_non_retryable(&anyhow::Error::msg("connection reset")));
}

#[test]
fn timeout_is_read_from_the_text_of_an_untyped_error() {
    assert!(is_timeout_error(&anyhow::Error::msg("request timeout")));
    assert!(is_timeout_error(&anyhow::Error::msg("Operation Timed Out")));
    assert!(is_timeout_error(&anyhow::Error::msg("TIMEOUT while reading")));
    assert!(!is_timeout_error(&anyhow::Error::msg("connection reset")));
    assert!(!is_timeout_error(&anyhow::Error::msg("")));
    assert!(!ProviderError::from_message("time out").is_timeout());
    assert!(!ProviderError::from_message("timedout").is_timeout());
}

#[test]
fn anyhow_error_is_read_by_its_rendering() {
    let e = ProviderError::from_anyhow(&anyhow::Error::msg("503 upstream timed out"));
    assert_eq!(e.http, None);
    assert_eq!(e.message, "503 upstream timed out");
    assert!(e.is_timeout());
    assert!(!e.is_non_retryable());
}

#[test]
fn context_around_an_anyhow_error_is_what_is_rendered() {
    let inner = anyhow::Error::msg("401 Unauthorized");
    let outer = inner.context("provider call");
    let e = ProviderError::from_anyhow(&outer);
    assert_eq!(e.message, "provider call");
    assert!(!is_non_retryable(&outer));
}

#[test]
fn typed_status_decides_before_the_text() {
    assert!(ProviderError::from_http(Some(404), false, "500 in the text").is_non_retryable());
    assert!(!ProviderError::from_http(Some(500), false, "404 in the text").is_non_retryable());
    assert!(!ProviderError::from_http(Some(429), false, "401").is_non_retryable());
    assert!(!ProviderError::from_http(Some(408), false, "401").is_non_retryable());
    assert!(ProviderError::from_http(Some(400), false, "").is_non_retryable());
    assert!(ProviderError::from_http(Some(499), false, "").is_non_retryable());
    assert!(!ProviderError::from_http(Some(399), false, "").is_non_retryable());
}

#[test]
fn typed_error_without_status_falls_back_to_the_text() {
    assert!(ProviderError::from_http(None, false, "got 403").is_non_retryable());
    assert!(!ProviderError::from_http(None, false, "got 503").is_non_retryable());
}

#[test]
fn typed_error_reports_its_own_timeout() {
    assert!(ProviderError::from_http(None, true, "connection closed").is_timeout());
    assert!(!ProviderError::from_http(None, false, "request timeout").is_timeout());
    assert!(!ProviderError::from_http(Some(504), false, "timed out").is_timeout());
}

#[test]
fn first_client_code_in_the_text_decides() {
    // 429 comes first and is in range: it decides, the later 401 is not read.
    assert!(!ProviderError::from_message("429 then 401").is_non_retryable());
    assert!(!ProviderError::from_message("408 then 404").is_non_retryable());
    // 500 is out of range and skipped; 404 decides.
    assert!(ProviderError::from_message("500 then 404").is_non_retryable());
    assert!(ProviderError::from_message("200 300 403 429").is_non_retryable());
}

#[test]
fn digit_runs_are_read_whole() {
    // 4010 and 14015 are single runs outside the range.
    assert!(!ProviderError::from_message("error 4010").is_non_retryable());
    assert!(!ProviderError::from_message("id 14015").is_non_retryable());
    // Leading zeros do not change the number.
    assert!(ProviderError::from_message("code 0401").is_non_retryable());
    assert!(ProviderError::from_message("code 000000000000000000000000404").is_non_retryable());
    // A run too long for any machine integer is skipped, not an error.
    assert!(ProviderError::from_message("99999999999999999999999999999999 403").is_non_retryable());
    assert!(!ProviderError::from_message("99999999999999999999999999999999").is_non_retryable());
    // Digits separated by anything else are separate runs.
    assert!(ProviderError::from_message("v4.404").is_non_retryable());
    assert!(ProviderError::from_message("4-0-1 401").is_non_retryable());
    assert!(!ProviderError::from_message("4 0 1").is_non_retryable());
}

#[test]
fn non_ascii_digits_are_no_digits() {
    // Arabic-Indic digits four-zero-one.
    assert!(!ProviderError::from_message("\u{664}\u{660}\u{661}").is_non_retryable());
    assert!(ProviderError::from_message("\u{e9}rror 401 \u{1F600}").is_non_retryable());
}

#[test]
fn find_client_status_returns_the_code() {
    let text: Vec<char> = "HTTP 418 teapot".chars().collect();
    assert_eq!(find_client_status(&text), Some(418));
    let text: Vec<char> = "HTTP 500, then 499".chars().collect();
    assert_eq!(find_client_status(&text), Some(499));
    let text: Vec<char> = "no code".chars().collect();
    assert_eq!(find_client_status(&text), None);
    let text: Vec<char> = Vec::new();
    assert_eq!(find_client_status(&text), None);
    let text: Vec<char> = "399 500 65536400".chars().collect();
    assert_eq!(find_client_status(&text), None);
}

#[test]
fn client_error_is_final_on_the_range_bounds() {
    assert!(!client_error_is_final(399));
    assert!(client_error_is_final(400));
    assert!(client_error_is_final(407));
    assert!(!client_error_is_final(408));
    assert!(client_error_is_final(409));
    assert!(client_error_is_final(428));
    assert!(!client_error_is_final(429));
    assert!(client_error_is_final(430));
    assert!(client_error_is_final(499));
    assert!(!client_error_is_final(500));
    assert!(!client_error_is_final(0));
    assert!(!client_error_is_final(u16::MAX));
}

#[test]
fn typed_http_error_is_read_off_an_anyhow_error() {
    // A request that cannot be built fails with the HTTP client's own error,
    // which carries no status and is no timeout.
    let failed = reqwest::Client::new().get("timeout 404").build().unwrap_err();
    let err = anyhow::Error::from(failed);
    let read = ProviderError::from_anyhow(&err);
    let http = read.http.expect("the error is the HTTP client's");
    assert_eq!(http.status, None);
    assert!(!http.timed_out);
    assert_eq!(read.message, err.to_string());
    // The typed error answers for the timeout itself, whatever its text says.
    assert!(!is_timeout_error(&err));
    assert_eq!(is_non_retryable(&err), read.is_non_retryable());
    // Behind a context the typed error is still found.
    let wrapped = err.context("401 while calling");
    let read = ProviderError::from_anyhow(&wrapped);
    assert!(read.http.is_some());
    assert_eq!(read.message, "401 while calling");
    assert!(is_non_retryable(&wrapped));
    assert!(!is_timeout_error(&wrapped));
}
