//! What can go wrong when a provider is asked for lyrics.
use vstd::prelude::*;
use crate::num::{decimal, decimal_exec};
use crate::text::{chars_of, push_all, string_of};

verus! {

pub const DEFAULT_RETRY_AFTER_SECS: i64 = 60;
pub const MIN_RETRY_AFTER_SECS: i64 = 1;
pub const MAX_RETRY_AFTER_SECS: i64 = 86400;

#[derive(Debug, PartialEq, Eq)]
pub enum ProviderError {
    /// The provider asked to wait before asking again.
    RateLimited { retry_after_secs: i64 },
    Other(String),
}

/// The wait a rate limit asks for: the given one (60 seconds when none is
/// given), within one second and one day.
pub open spec fn retry_wait(retry_after_secs: Option<i64>) -> i64 {
    let v = match retry_after_secs {
        Some(v) => v,
        None => DEFAULT_RETRY_AFTER_SECS,
    };
    if v < MIN_RETRY_AFTER_SECS {
        MIN_RETRY_AFTER_SECS
    } else if v > MAX_RETRY_AFTER_SECS {
        MAX_RETRY_AFTER_SECS
    } else {
        v
    }
}

/// The message an error reads as.
pub open spec fn error_message(e: ProviderError) -> Seq<char> {
    match e {
        ProviderError::RateLimited { retry_after_secs } => "rate limited, retry in "@ + decimal(
            retry_after_secs as int,
        ) + "s"@,
        ProviderError::Other(m) => m@,
    }
}

impl ProviderError {
    pub fn other(message: String) -> (r: ProviderError)
        ensures
            r == ProviderError::Other(message),
    {
        ProviderError::Other(message)
    }

    pub fn rate_limited(retry_after_secs: Option<i64>) -> (r: ProviderError)
        ensures
            r == (ProviderError::RateLimited { retry_after_secs: retry_wait(retry_after_secs) }),
    {
        let v = match retry_after_secs {
            Some(v) => v,
            None => DEFAULT_RETRY_AFTER_SECS,
        };
        let w = if v < MIN_RETRY_AFTER_SECS {
            MIN_RETRY_AFTER_SECS
        } else if v > MAX_RETRY_AFTER_SECS {
            MAX_RETRY_AFTER_SECS
        } else {
            v
        };
        ProviderError::RateLimited { retry_after_secs: w }
    }

    /// The error's message.
    pub fn message(&self) -> (r: String)
        ensures
            r@ == error_message(*self),
    {
        match self {
            ProviderError::RateLimited { retry_after_secs } => {
                let mut out = chars_of("rate limited, retry in ");
                push_all(&mut out, decimal_exec(*retry_after_secs).as_slice());
                out.push('s');
                proof {
                    reveal_strlit("s");
                }
                string_of(out.as_slice())
            },
            ProviderError::Other(m) => string_of(chars_of(m.as_str()).as_slice()),
        }
    }
}

} // verus!
