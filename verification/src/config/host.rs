//! Reading typed settings from the raw text the host's configuration holds
//! for a key (`None` when the key is unset).
use vstd::prelude::*;
use crate::num::{int_in_range, int_syntax, int_value_sat, parse_int_saturating};
use crate::text::{chars_of, lower_ascii_seq, trim, trim_vec};
use crate::types::lower_vec;
use crate::format::lrc::seq_equal;

verus! {

/// A boolean setting: `true`/`1` or `false`/`0`, trimmed, ASCII case ignored.
pub open spec fn bool_of(raw: Seq<char>) -> Option<bool> {
    let key = lower_ascii_seq(trim(raw));
    if key == "true"@ || key == "1"@ {
        Some(true)
    } else if key == "false"@ || key == "0"@ {
        Some(false)
    } else {
        None
    }
}

/// An integer setting, trimmed; values beyond the range of `i64` saturate.
pub open spec fn i64_of(raw: Seq<char>) -> Option<int> {
    match int_syntax(trim(raw)) {
        Some((neg, d)) => Some(int_value_sat(neg, d)),
        None => None,
    }
}

/// A 32-bit integer setting: an integer setting within the range of `i32`.
pub open spec fn i32_of(raw: Seq<char>) -> Option<int> {
    match i64_of(raw) {
        Some(v) => if i32::MIN <= v <= i32::MAX {
            Some(v)
        } else {
            None
        },
        None => None,
    }
}

/// A raw value is unset when it is missing or blank.
pub open spec fn present(raw: Option<Seq<char>>) -> Option<Seq<char>> {
    match raw {
        Some(s) => if trim(s).len() > 0 {
            Some(s)
        } else {
            None
        },
        None => None,
    }
}

pub open spec fn opt_view(o: Option<String>) -> Option<Seq<char>> {
    match o {
        Some(s) => Some(s@),
        None => None,
    }
}

pub fn parse_bool(raw: &str) -> (r: Option<bool>)
    ensures
        r == bool_of(raw@),
{
    let c = chars_of(raw);
    let t = trim_vec(c.as_slice());
    let key = lower_vec(t.as_slice());
    let yes = chars_of("true");
    let one = chars_of("1");
    let no = chars_of("false");
    let zero = chars_of("0");
    if seq_equal(key.as_slice(), yes.as_slice()) || seq_equal(key.as_slice(), one.as_slice()) {
        Some(true)
    } else if seq_equal(key.as_slice(), no.as_slice()) || seq_equal(key.as_slice(), zero.as_slice()) {
        Some(false)
    } else {
        None
    }
}

/// Parses a trimmed integer; values beyond the range of `i64` saturate.
pub fn parse_i64(raw: &str) -> (r: Option<i64>)
    ensures
        match r {
            Some(v) => i64_of(raw@) == Some(v as int),
            None => i64_of(raw@) is None,
        },
{
    let c = chars_of(raw);
    let t = trim_vec(c.as_slice());
    match parse_int_saturating(t.as_slice()) {
        Some((_neg, _fits, v)) => Some(v),
        None => None,
    }
}

/// Parses a trimmed integer that fits in an `i32`.
pub fn parse_i32(raw: &str) -> (r: Option<i32>)
    ensures
        match r {
            Some(v) => i32_of(raw@) == Some(v as int),
            None => i32_of(raw@) is None,
        },
{
    match parse_i64(raw) {
        Some(v) => {
            if i32::MIN as i64 <= v && v <= i32::MAX as i64 {
                Some(v as i32)
            } else {
                None
            }
        },
        None => None,
    }
}

/// The raw value of a key, treated as unset when blank.
pub fn get_string(raw: Option<String>) -> (r: Option<String>)
    ensures
        opt_view(r) == present(opt_view(raw)),
{
    match raw {
        Some(s) => {
            let c = chars_of(s.as_str());
            let t = trim_vec(c.as_slice());
            if t.len() > 0 {
                Some(s)
            } else {
                None
            }
        },
        None => None,
    }
}

/// A boolean setting, or `default` when unset or not a boolean.
pub fn get_bool(raw: Option<String>, default: bool) -> (r: bool)
    ensures
        r == match present(opt_view(raw)) {
            Some(s) => match bool_of(s) {
                Some(b) => b,
                None => default,
            },
            None => default,
        },
{
    match get_string(raw) {
        Some(s) => match parse_bool(s.as_str()) {
            Some(b) => b,
            None => default,
        },
        None => default,
    }
}

/// An integer setting, or `default` when unset or not an integer.
pub fn get_i64(raw: Option<String>, default: i64) -> (r: i64)
    ensures
        r == match present(opt_view(raw)) {
            Some(s) => match i64_of(s) {
                Some(v) => v,
                None => default as int,
            },
            None => default as int,
        },
{
    match get_string(raw) {
        Some(s) => match parse_i64(s.as_str()) {
            Some(v) => v,
            None => default,
        },
        None => default,
    }
}

/// A 32-bit integer setting, or `None` when unset or not such an integer.
pub fn get_optional_i32(raw: Option<String>) -> (r: Option<i32>)
    ensures
        match r {
            Some(v) => present(opt_view(raw)) matches Some(s) && i32_of(s) == Some(v as int),
            None => match present(opt_view(raw)) {
                Some(s) => i32_of(s) is None,
                None => true,
            },
        },
{
    match get_string(raw) {
        Some(s) => parse_i32(s.as_str()),
        None => None,
    }
}

/// How a raw integer setting reads: a value `str::parse` accepts as it
/// stands, an integer literal beyond the range of `i64` (or one that only
/// reads as an integer once trimmed), which saturates, or neither.
#[derive(Debug, PartialEq, Eq, Structural, Clone, Copy)]
pub enum I64Parse {
    Value(i64),
    Saturated(i64),
    Invalid,
}

pub open spec fn i64_verdict(raw: Seq<char>) -> I64Parse {
    match int_syntax(raw) {
        Some((neg, d)) if int_in_range(neg, d) => I64Parse::Value(int_value_sat(neg, d) as i64),
        _ => match int_syntax(trim(raw)) {
            Some((neg, _)) => I64Parse::Saturated(
                if neg {
                    i64::MIN
                } else {
                    i64::MAX
                },
            ),
            None => I64Parse::Invalid,
        },
    }
}

/// Reads a raw integer setting, telling a saturated value from an exact one.
pub fn parse_i64_verdict(raw: &str) -> (r: I64Parse)
    ensures
        r == i64_verdict(raw@),
{
    let c = chars_of(raw);
    match parse_int_saturating(c.as_slice()) {
        Some((_neg, true, v)) => I64Parse::Value(v),
        _ => {
            let t = trim_vec(c.as_slice());
            match parse_int_saturating(t.as_slice()) {
                Some((neg, _fits, _v)) => I64Parse::Saturated(
                    if neg {
                        i64::MIN
                    } else {
                        i64::MAX
                    },
                ),
                None => I64Parse::Invalid,
            }
        },
    }
}

} // verus!
