//! Retry policy: a provider's initial connection is retried on transient errors with exponential
//! backoff + jitter.

use crate::text;
use crate::text_laws;
use vstd::prelude::*;
use vstd::string::*;

verus! {

/// What to do after a failed attempt.
#[derive(Debug, Clone, Copy, PartialEq, Eq, Structural)]
pub enum RetryStep {
    /// Report the error.
    GiveUp,
    /// Wait so many milliseconds, then make the attempt of this number.
    Wait { delay_ms: u64, attempt: u32 },
}

/// Two to the power of `n`.
pub open spec fn doubled(n: nat) -> nat
    decreases n,
{
    if n == 0 {
        1
    } else {
        2 * doubled((n - 1) as nat)
    }
}

/// Exponential backoff (500ms * 2^attempt, the exponent capped at 5) plus a jitter offset.
pub open spec fn delay_of(attempt: u32, jitter_ms: u64) -> int {
    500 * doubled(
        if attempt < 5 {
            attempt as nat
        } else {
            5
        },
    ) + jitter_ms
}

/// Exponential backoff plus a jitter offset, in milliseconds.
pub fn backoff_delay(attempt: u32, jitter_ms: u64) -> (r: u64)
    requires
        jitter_ms <= u64::MAX - 16000,
    ensures
        r == delay_of(attempt, jitter_ms),
{
    let exponent: u32 = if attempt < 5 {
        attempt
    } else {
        5
    };
    let mut base: u64 = 500;
    let mut i: u32 = 0;
    while i < exponent
        invariant
            0 <= i <= exponent <= 5,
            base == 500 * doubled(i as nat),
            base <= 16000,
            i == 0 ==> base == 500,
            i == 1 ==> base == 1000,
            i == 2 ==> base == 2000,
            i == 3 ==> base == 4000,
            i == 4 ==> base == 8000,
            i == 5 ==> base == 16000,
        decreases exponent - i,
    {
        base = base * 2;
        i += 1;
    }
    base + jitter_ms
}

/// Random bytes from the operating system.
///
/// `getrandom::fill` on a buffer of this length: the filled buffer, or nothing where the system
/// gave no randomness. Nothing is said of the bytes. No buffer is longer than `isize::MAX`.
#[verifier::external_body]
pub(crate) fn random_bytes(len: usize) -> (r: Option<Vec<u8>>)
    requires
        len <= isize::MAX,
    ensures
        r matches Some(bytes) ==> bytes@.len() == len,
{
    let mut buf = vec![0u8; len];
    match getrandom::fill(&mut buf) {
        Ok(()) => Some(buf),
        Err(_) => None,
    }
}

/// The jitter that two random bytes give: their value, the first byte the low one, modulo 250.
pub fn jitter_of(low: u8, high: u8) -> (r: u64)
    ensures
        r == (low + 256 * high) % 250,
{
    (low as u64 + 256 * (high as u64)) % 250
}

/// A small random jitter in [0, 250) ms. Without randomness there is none.
pub fn jitter_ms() -> (r: u64)
    ensures
        r < 250,
{
    match random_bytes(2) {
        Some(bytes) => jitter_of(bytes[0], bytes[1]),
        None => jitter_of(0, 0),
    }
}

/// A permanent 4xx client error: by its HTTP status, or by the words of its message.
pub open spec fn client_error(status: Option<u16>, message: Seq<char>) -> bool {
    (status matches Some(code) && 400 <= code < 500) || text::holds(
        text::lowercased(message),
        "client error"@,
    )
}

/// Whether an error is a permanent 4xx client error (don't retry those). Detects both an HTTP
/// status and adapters that format the reason as "HTTP client error ...".
pub fn is_client_error(status: Option<u16>, message: &str) -> (r: bool)
    ensures
        r == client_error(status, message@),
{
    if let Some(code) = status {
        if 400 <= code && code < 500 {
            return true;
        }
    }
    text::contains(text::to_lowercase(message).as_str(), "client error")
}

/// What to do when the attempt of this number has failed: client errors are permanent, and so is
/// the error of the last attempt.
pub fn after_failure(attempt: u32, max_retries: u32, is_client_error: bool, jitter_ms: u64) -> (r:
    RetryStep)
    requires
        jitter_ms < 250,
    ensures
        r == (if attempt >= max_retries || is_client_error {
            RetryStep::GiveUp
        } else {
            RetryStep::Wait {
                delay_ms: delay_of(attempt, jitter_ms) as u64,
                attempt: (attempt + 1) as u32,
            }
        }),
{
    if attempt >= max_retries || is_client_error {
        RetryStep::GiveUp
    } else {
        RetryStep::Wait { delay_ms: backoff_delay(attempt, jitter_ms), attempt: attempt + 1 }
    }
}

proof fn lemma_doubled_monotone(a: nat, b: nat)
    requires
        a <= b,
    ensures
        doubled(a) <= doubled(b),
    decreases b,
{
    if a < b {
        lemma_doubled_monotone(a, (b - 1) as nat);
    }
}

/// Waiting never gets shorter from one attempt to the next, and is never longer than sixteen
/// seconds and the jitter.
pub proof fn backoff_grows_to_a_cap(earlier: u32, later: u32, jitter_ms: u64)
    requires
        earlier <= later,
    ensures
        delay_of(earlier, jitter_ms) <= delay_of(later, jitter_ms),
        delay_of(later, jitter_ms) <= 16000 + jitter_ms,
{
    reveal_with_fuel(doubled, 6);
    let a: nat = if earlier < 5 {
        earlier as nat
    } else {
        5
    };
    let b: nat = if later < 5 {
        later as nat
    } else {
        5
    };
    lemma_doubled_monotone(a, b);
    lemma_doubled_monotone(b, 5);
}

/// The wait starts at half a second and doubles with every attempt, up to the fifth; the jitter comes
/// on top.
pub proof fn backoff_doubles(attempt: u32, jitter_ms: u64)
    ensures
        delay_of(0, jitter_ms) == 500 + jitter_ms,
        attempt < 5 ==> delay_of((attempt + 1) as u32, jitter_ms) - jitter_ms == 2 * (delay_of(
            attempt,
            jitter_ms,
        ) - jitter_ms),
        attempt >= 5 ==> delay_of(attempt, jitter_ms) == 16000 + jitter_ms,
{
    reveal_with_fuel(doubled, 7);
}

/// A request that the provider refuses as wrong is a client's error, whatever is said of it; a failure
/// of the provider is one only where the message says so.
pub proof fn a_refused_request_is_the_clients_error(code: u16, message: Seq<char>)
    ensures
        400 <= code <= 499 ==> client_error(Some(code), message),
        !(400 <= code <= 499) ==> client_error(Some(code), message) == client_error(None, message),
        client_error(None, message) <==> exists|i: int|
            text::occurs_at(text::lowercased(message), "client error"@, i),
{
    text_laws::holding_is_occurring(text::lowercased(message), "client error"@);
}

} // verus!
