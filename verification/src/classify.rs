//! Error classification: which upstream failures are worth retrying, and
//! which of them are timeouts.

use crate::text::{
    all_digits, chars_of, contains_lowered, decimal_value, digit_of, is_ascii_digit, is_digit,
    lemma_decimal_value_step, occurs_lowered,
};
use vstd::prelude::*;

verus! {

/// What a typed HTTP failure reports about itself.
#[derive(Clone, Copy, Debug, PartialEq, Eq, Structural)]
pub struct HttpFailure {
    /// The response status, when the failure was generated from a response.
    pub status: Option<u16>,
    /// Whether the HTTP client attributes the failure to a timeout.
    pub timed_out: bool,
}

/// A failed upstream call, reduced to what classification reads.
#[derive(Clone, Debug)]
pub struct ProviderError {
    /// Present when the failure is a typed HTTP error.
    pub http: Option<HttpFailure>,
    /// The failure's rendering as text.
    pub message: String,
}

/// A status in the client-error range that no retry will cure: any 4xx
/// except 408 (Request Timeout) and 429 (Too Many Requests).
pub open spec fn status_non_retryable(code: nat) -> bool {
    400 <= code < 500 && code != 408 && code != 429
}

/// The number of ASCII digits that `s` starts with.
pub open spec fn leading_digits(s: Seq<char>) -> nat
    decreases s.len(),
{
    if s.len() == 0 || !is_digit(s[0]) {
        0
    } else {
        1 + leading_digits(s.drop_first())
    }
}

/// The first maximal run of ASCII digits in `s` whose decimal value lies in
/// `[400, 500)`, as a number.
pub open spec fn status_in_text(s: Seq<char>) -> Option<nat>
    decreases s.len(),
{
    let run = leading_digits(s);
    if s.len() == 0 {
        None
    } else if run == 0 {
        status_in_text(s.drop_first())
    } else {
        let code = decimal_value(s.take(run as int));
        if 400 <= code < 500 {
            Some(code)
        } else {
            proof {
                lemma_leading_digits_bound(s);
            }
            status_in_text(s.skip(run as int))
        }
    }
}

/// A text cannot start with more digits than it has characters.
pub proof fn lemma_leading_digits_bound(s: Seq<char>)
    ensures
        leading_digits(s) <= s.len(),
    decreases s.len(),
{
    if s.len() > 0 && is_digit(s[0]) {
        lemma_leading_digits_bound(s.drop_first());
    }
}

/// The rule for a failure known only by its text.
pub open spec fn text_non_retryable(message: Seq<char>) -> bool {
    match status_in_text(message) {
        Some(code) => status_non_retryable(code),
        None => false,
    }
}

/// The rule for timeouts in a failure's text.
pub open spec fn text_timed_out(message: Seq<char>) -> bool {
    occurs_lowered(message, "timeout"@) || occurs_lowered(message, "timed out"@)
}

impl ProviderError {
    /// The status that a typed HTTP failure carries, if any.
    pub open spec fn typed_status(&self) -> Option<u16> {
        match self.http {
            Some(h) => h.status,
            None => None,
        }
    }

    /// Retrying cannot help: the typed status decides where there is one,
    /// the text otherwise.
    pub open spec fn non_retryable(&self) -> bool {
        match self.typed_status() {
            Some(code) => status_non_retryable(code as nat),
            None => text_non_retryable(self.message@),
        }
    }

    /// The failure is a timeout: a typed HTTP failure says so itself, any
    /// other failure by its text.
    pub open spec fn timed_out(&self) -> bool {
        match self.http {
            Some(h) => h.timed_out,
            None => text_timed_out(self.message@),
        }
    }

    /// A failure known only by its text.
    pub fn from_message(message: &str) -> (e: Self)
        ensures
            e.http is None,
            e.message@ == message@,
    {
        ProviderError { http: None, message: message.to_owned() }
    }

    /// A typed HTTP failure.
    pub fn from_http(status: Option<u16>, timed_out: bool, message: &str) -> (e: Self)
        ensures
            e.http == Some(HttpFailure { status, timed_out }),
            e.message@ == message@,
    {
        ProviderError { http: Some(HttpFailure { status, timed_out }), message: message.to_owned() }
    }

    /// Reads off an `anyhow::Error` what classification needs: the typed
    /// HTTP failure inside it, if it holds one, and its rendering.
    pub fn from_anyhow(err: &anyhow::Error) -> (e: Self)
        ensures
            e.message@ == rendered_text(*err),
            e.http == match typed_http(*err) {
                Some((status, timed_out)) => Some(HttpFailure { status, timed_out }),
                None => None,
            },
    {
        let http = match http_error_in(err) {
            Some(inner) => Some(
                HttpFailure { status: http_status(inner), timed_out: http_timed_out(inner) },
            ),
            None => None,
        };
        ProviderError { http, message: rendering(err) }
    }

    /// Tells whether retrying this failure on the same provider is pointless.
    pub fn is_non_retryable(&self) -> (b: bool)
        ensures
            b == self.non_retryable(),
    {
        match self.http {
            Some(HttpFailure { status: Some(code), .. }) => client_error_is_final(code),
            _ => {
                let chars = chars_of(self.message.as_str());
                match find_client_status(&chars) {
                    Some(code) => client_error_is_final(code),
                    None => false,
                }
            },
        }
    }

    /// Tells whether this failure is a timeout.
    pub fn is_timeout(&self) -> (b: bool)
        ensures
            b == self.timed_out(),
    {
        match self.http {
            Some(h) => h.timed_out,
            None => {
                let chars = chars_of(self.message.as_str());
                let timeout = chars_of("timeout");
                let timed_out = chars_of("timed out");
                contains_lowered(&chars, &timeout) || contains_lowered(&chars, &timed_out)
            },
        }
    }
}

/// Tells whether `code` is a client error other than 408 and 429.
pub fn client_error_is_final(code: u16) -> (b: bool)
    ensures
        b == status_non_retryable(code as nat),
{
    400 <= code && code < 500 && code != 408 && code != 429
}

/// A digit prefix that ends at the end of the text or before a non-digit
/// is the whole leading run.
pub proof fn lemma_leading_digits(s: Seq<char>, n: int)
    requires
        0 <= n <= s.len(),
        all_digits(s.take(n)),
        n == s.len() || !is_digit(s[n]),
    ensures
        leading_digits(s) == n,
    decreases n,
{
    if n == 0 {
    } else {
        assert(s.take(n)[0] == s[0]);
        let rest = s.drop_first();
        assert forall|i: int| 0 <= i < rest.take(n - 1).len() implies is_digit(
            #[trigger] rest.take(n - 1)[i],
        ) by {
            assert(rest.take(n - 1)[i] == s.take(n)[i + 1]);
        }
        lemma_leading_digits(rest, n - 1);
    }
}

/// Scans `text` for the first maximal run of ASCII digits whose value lies
/// in `[400, 500)`.
pub fn find_client_status(text: &Vec<char>) -> (r: Option<u16>)
    ensures
        match r {
            Some(code) => status_in_text(text@) == Some(code as nat),
            None => status_in_text(text@) is None,
        },
{
    let mut i: usize = 0;
    assert(text@.skip(0) =~= text@);
    while i < text.len()
        invariant
            i <= text.len(),
            status_in_text(text@) == status_in_text(text@.skip(i as int)),
        decreases text.len() - i,
    {
        let ghost rest = text@.skip(i as int);
        assert(rest[0] == text@[i as int]);
        if !is_ascii_digit(text[i]) {
            assert(leading_digits(rest) == 0);
            assert(rest.drop_first() =~= text@.skip(i + 1));
            i = i + 1;
        } else {
            // Read the whole run, keeping its value only up to a bound
            // that is already outside the range of interest.
            let mut j: usize = i;
            let mut capped: u16 = 0;
            while j < text.len() && is_ascii_digit(text[j])
                invariant
                    i <= j <= text.len(),
                    rest == text@.skip(i as int),
                    all_digits(rest.take(j - i)),
                    capped <= 1000,
                    capped == if decimal_value(rest.take(j - i)) < 1000 {
                        decimal_value(rest.take(j - i))
                    } else {
                        1000
                    },
                decreases text.len() - j,
            {
                let d = digit_of(text[j]) as u16;
                proof {
                    let k = j - i;
                    assert(rest[k] == text@[j as int]);
                    lemma_decimal_value_step(rest, k);
                    assert forall|q: int| 0 <= q < rest.take(k + 1).len() implies is_digit(
                        #[trigger] rest.take(k + 1)[q],
                    ) by {
                        if q < k {
                            assert(rest.take(k)[q] == rest.take(k + 1)[q]);
                        }
                    }
                }
                let next: u16 = capped * 10 + d;
                capped = if next < 1000 {
                    next
                } else {
                    1000
                };
                j = j + 1;
            }
            proof {
                if j < text.len() {
                    assert(rest[j - i] == text@[j as int]);
                }
                lemma_leading_digits(rest, j - i);
                assert(rest.skip(j - i) =~= text@.skip(j as int));
            }
            if 400 <= capped && capped < 500 {
                return Some(capped);
            }
            i = j;
        }
    }
    assert(text@.skip(i as int).len() == 0);
    None
}

/// Tells whether an upstream error is a client error that retries will not
/// resolve: a typed HTTP error with a status is judged by its status, any
/// other error by the first client-error code in its rendering.
pub fn is_non_retryable(err: &anyhow::Error) -> (b: bool)
    ensures
        b == match typed_http(*err) {
            Some((Some(code), _)) => status_non_retryable(code as nat),
            _ => text_non_retryable(rendered_text(*err)),
        },
{
    ProviderError::from_anyhow(err).is_non_retryable()
}

/// Tells whether an upstream error is a timeout: a typed HTTP error says so
/// itself, any other error by its rendering.
pub fn is_timeout_error(err: &anyhow::Error) -> (b: bool)
    ensures
        b == match typed_http(*err) {
            Some((_, timed_out)) => timed_out,
            None => text_timed_out(rendered_text(*err)),
        },
{
    ProviderError::from_anyhow(err).is_timeout()
}

/// The `Display` rendering of an error.
pub uninterp spec fn rendered_text(err: anyhow::Error) -> Seq<char>;

/// The HTTP client's error that an error holds, if it holds one.
pub uninterp spec fn held_http_error(err: anyhow::Error) -> Option<reqwest::Error>;

/// The response status that an HTTP client's error reports, if any.
pub uninterp spec fn reported_status(err: reqwest::Error) -> Option<u16>;

/// Whether an HTTP client's error reports a timeout.
pub uninterp spec fn reported_timeout(err: reqwest::Error) -> bool;

/// What an error holds of a typed HTTP failure: its status and whether it
/// is a timeout, or nothing where the error is no HTTP client's error.
pub open spec fn typed_http(err: anyhow::Error) -> Option<(Option<u16>, bool)> {
    match held_http_error(err) {
        Some(inner) => Some((reported_status(inner), reported_timeout(inner))),
        None => None,
    }
}

/// `anyhow::Error`, carried through as an opaque value.
#[verifier::external_type_specification]
#[verifier::external_body]
pub struct ExAnyhowError(anyhow::Error);

/// `reqwest::Error`, carried through as an opaque value.
#[verifier::external_type_specification]
#[verifier::external_body]
pub struct ExReqwestError(reqwest::Error);

/// `anyhow::Error::downcast_ref::<reqwest::Error>`: the HTTP client's error
/// inside `err`, if `err` holds one. Which one that is depends on `err`
/// alone, and is named `held_http_error`.
#[verifier::external_body]
fn http_error_in(err: &anyhow::Error) -> (inner: Option<&reqwest::Error>)
    ensures
        match inner {
            Some(held) => held_http_error(*err) == Some(*held),
            None => held_http_error(*err) is None,
        },
{
    err.downcast_ref::<reqwest::Error>()
}

/// `reqwest::Error::status`, with the status code read as a number by
/// `StatusCode::as_u16`. The status is a field of the error, and is named
/// `reported_status`.
#[verifier::external_body]
fn http_status(err: &reqwest::Error) -> (status: Option<u16>)
    ensures
        status == reported_status(*err),
{
    match err.status() {
        Some(code) => Some(code.as_u16()),
        None => None,
    }
}

/// `reqwest::Error::is_timeout`: whether a timeout is among the causes of
/// the error. The answer depends on the error alone, and is named
/// `reported_timeout`.
#[verifier::external_body]
fn http_timed_out(err: &reqwest::Error) -> (timed_out: bool)
    ensures
        timed_out == reported_timeout(*err),
{
    err.is_timeout()
}

/// The `Display` rendering of an `anyhow::Error`, which is that of the
/// error it wraps. It depends on the error alone, and is named
/// `rendered_text`.
#[verifier::external_body]
fn rendering(err: &anyhow::Error) -> (text: String)
    ensures
        text@ == rendered_text(*err),
{
    err.to_string()
}

} // verus!
