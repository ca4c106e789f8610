//! Decimal numbers written with ASCII digits: their values, saturating and
//! checked parsing, and zero-padded rendering.
use vstd::prelude::*;
use crate::text::{all_digits, copy_range, is_digit, push_all};

verus! {

pub open spec fn digit_value(c: char) -> nat {
    ((c as u32) - ('0' as u32)) as nat
}

/// The value of a run of ASCII digits (0 for the empty run).
pub open spec fn dec(s: Seq<char>) -> nat
    decreases s.len(),
{
    if s.len() == 0 {
        0
    } else {
        dec(s.drop_last()) * 10 + digit_value(s.last())
    }
}

pub open spec fn sat_u64(x: nat) -> nat {
    if x > u64::MAX {
        u64::MAX as nat
    } else {
        x
    }
}

pub fn is_ascii_digit(c: char) -> (r: bool)
    ensures
        r == is_digit(c),
{
    '0' <= c && c <= '9'
}

pub fn all_digits_exec(s: &[char]) -> (r: bool)
    ensures
        r == all_digits(s@),
{
    let mut i: usize = 0;
    while i < s.len()
        invariant
            i <= s@.len(),
            forall|j: int| 0 <= j < i ==> is_digit(#[trigger] s@[j]),
        decreases s.len() - i,
    {
        if !is_ascii_digit(s[i]) {
            return false;
        }
        i = i + 1;
    }
    true
}

pub proof fn lemma_dec_step(s: Seq<char>, i: int)
    requires
        0 <= i < s.len(),
    ensures
        dec(s.take(i + 1)) == dec(s.take(i)) * 10 + digit_value(s[i]),
{
    assert(s.take(i + 1).drop_last() =~= s.take(i));
}

/// The value of the digits in `s`, capped at `u64::MAX`.
pub fn dec_saturating(s: &[char]) -> (r: u64)
    requires
        all_digits(s@),
    ensures
        r == sat_u64(dec(s@)),
{
    let mut v: u64 = 0;
    let mut i: usize = 0;
    while i < s.len()
        invariant
            i <= s@.len(),
            all_digits(s@),
            v == sat_u64(dec(s@.take(i as int))),
        decreases s.len() - i,
    {
        proof {
            lemma_dec_step(s@, i as int);
        }
        let d = (s[i] as u32 - '0' as u32) as u64;
        assert(is_digit(s@[i as int]));
        if v == u64::MAX {
            v = u64::MAX;
        } else if v > (u64::MAX - d) / 10 {
            assert(v * 10 + d > u64::MAX) by (nonlinear_arith)
                requires
                    v > (u64::MAX - d) / 10,
                    d <= 9,
            ;
            v = u64::MAX;
        } else {
            assert(v * 10 + d <= u64::MAX) by (nonlinear_arith)
                requires
                    v <= (u64::MAX - d) / 10,
                    d <= 9,
            ;
            v = v * 10 + d;
        }
        i = i + 1;
    }
    assert(s@.take(s@.len() as int) =~= s@);
    v
}

/// The value of the digits in `s` if it fits in a `u64`.
pub fn dec_checked(s: &[char]) -> (r: Option<u64>)
    requires
        all_digits(s@),
    ensures
        r matches Some(v) ==> v == dec(s@),
        r is None <==> dec(s@) > u64::MAX,
{
    let v = dec_saturating(s);
    if v == u64::MAX {
        // u64::MAX itself parses; only larger values overflow.
        if dec_is_exactly_max(s) {
            Some(v)
        } else {
            None
        }
    } else {
        Some(v)
    }
}

/// Whether the digits in `s` denote exactly `u64::MAX`.
fn dec_is_exactly_max(s: &[char]) -> (r: bool)
    requires
        all_digits(s@),
        sat_u64(dec(s@)) == u64::MAX,
    ensures
        r == (dec(s@) == u64::MAX),
{
    let mut v: u128 = 0;
    let mut i: usize = 0;
    while i < s.len()
        invariant
            i <= s@.len(),
            all_digits(s@),
            v == dec(s@.take(i as int)),
            v <= u64::MAX,
        decreases s.len() - i,
    {
        proof {
            lemma_dec_step(s@, i as int);
        }
        assert(is_digit(s@[i as int]));
        let d = (s[i] as u32 - '0' as u32) as u128;
        let nv = v * 10 + d;
        if nv > u64::MAX as u128 {
            proof {
                lemma_dec_prefix_le(s@, i + 1);
            }
            return false;
        }
        v = nv;
        i = i + 1;
    }
    assert(s@.take(s@.len() as int) =~= s@);
    v == u64::MAX as u128
}

/// The value of a prefix never exceeds the value of the whole run.
pub proof fn lemma_dec_prefix_le(s: Seq<char>, k: int)
    requires
        0 <= k <= s.len(),
        all_digits(s),
    ensures
        dec(s.take(k)) <= dec(s),
    decreases s.len() - k,
{
    if k < s.len() {
        lemma_dec_step(s, k);
        lemma_dec_prefix_le(s, k + 1);
    } else {
        assert(s.take(k) =~= s);
    }
}

pub open spec fn pow10(n: nat) -> nat
    decreases n,
{
    if n == 0 {
        1
    } else {
        10 * pow10((n - 1) as nat)
    }
}

/// Nine fractional digits: the first nine of `s`, padded with zeros.
pub open spec fn frac9(s: Seq<char>) -> nat {
    if s.len() >= 9 {
        dec(s.take(9))
    } else {
        dec(s) * pow10((9 - s.len()) as nat)
    }
}

pub fn frac9_exec(s: &[char]) -> (r: u64)
    requires
        all_digits(s@),
    ensures
        r == frac9(s@),
        r < 1_000_000_000,
{
    let n = if s.len() >= 9 {
        9
    } else {
        s.len()
    };
    let mut v: u64 = 0;
    let mut i: usize = 0;
    assert(pow10(8) == 100_000_000) by {
        reveal_with_fuel(pow10, 9);
    }
    assert(pow10(0) == 1);
    while i < n
        invariant
            pow10(8) == 100_000_000,
            n <= 9,
            n <= s@.len(),
            i <= n,
            all_digits(s@),
            v == dec(s@.take(i as int)),
            v < pow10(i as nat),
        decreases n - i,
    {
        proof {
            lemma_dec_step(s@, i as int);
        }
        assert(is_digit(s@[i as int]));
        let d = (s[i] as u32 - '0' as u32) as u64;
        assert(pow10((i + 1) as nat) == 10 * pow10(i as nat));
        assert(pow10(i as nat) <= 100_000_000) by {
            lemma_pow10_le(i as nat, 8);
        }
        assert(v * 10 + d < 10 * pow10(i as nat)) by (nonlinear_arith)
            requires
                v < pow10(i as nat),
                d <= 9,
        ;
        v = v * 10 + d;
        i = i + 1;
    }
    let mut k: usize = n;
    let mut r = v;
    assert(pow10(0) == 1);
    assert(v * pow10(0) == v);
    while k < 9
        invariant
            pow10(8) == 100_000_000,
            n <= k <= 9,
            r == v * pow10((k - n) as nat),
            r < pow10(k as nat),
        decreases 9 - k,
    {
        assert(pow10((k + 1) as nat) == 10 * pow10(k as nat));
        assert(pow10(((k + 1) - n) as nat) == 10 * pow10((k - n) as nat));
        assert(pow10(k as nat) <= 100_000_000) by {
            lemma_pow10_le(k as nat, 8);
        }
        assert(r * 10 == v * pow10(((k + 1) - n) as nat)) by (nonlinear_arith)
            requires
                r == v * pow10((k - n) as nat),
                pow10(((k + 1) - n) as nat) == 10 * pow10((k - n) as nat),
        ;
        r = r * 10;
        k = k + 1;
    }
    assert(pow10(9) == 1_000_000_000) by {
        reveal_with_fuel(pow10, 10);
    }
    proof {
        if s@.len() >= 9 {
            assert(n == 9);
            assert(r == v * pow10(0));
        } else {
            assert(s@.take(n as int) =~= s@);
        }
    }
    r
}

pub proof fn lemma_pow10_le(a: nat, b: nat)
    requires
        a <= b,
    ensures
        pow10(a) <= pow10(b),
    decreases b,
{
    if a < b {
        lemma_pow10_le(a, (b - 1) as nat);
    }
}


/// The ASCII digit for `d < 10`.
pub open spec fn digit_char(d: nat) -> char {
    ((d + 48) as u8) as char
}

/// The decimal digits of `n`, without leading zeros.
pub open spec fn digits(n: nat) -> Seq<char>
    decreases n,
{
    if n < 10 {
        seq![digit_char(n)]
    } else {
        digits(n / 10).push(digit_char(n % 10))
    }
}

/// `format!("{:02}", n)`: the digits of `n`, zero-padded to two places.
pub open spec fn pad2(n: nat) -> Seq<char> {
    if n < 10 {
        seq!['0', digit_char(n)]
    } else {
        digits(n)
    }
}

/// `format!("{:0>w$}", v)`: `v` with zeros in front up to width `w`.
pub open spec fn pad_zeros(v: Seq<char>, w: nat) -> Seq<char> {
    if v.len() >= w {
        v
    } else {
        Seq::new((w - v.len()) as nat, |i: int| '0') + v
    }
}

pub fn digit_char_exec(d: u64) -> (r: char)
    requires
        d < 10,
    ensures
        r == digit_char(d as nat),
{
    ((d as u8) + 48u8) as char
}

/// Appends the decimal digits of `n`.
pub fn push_digits(out: &mut Vec<char>, n: u64)
    ensures
        final(out)@ == old(out)@ + digits(n as nat),
    decreases n,
{
    if n >= 10 {
        push_digits(out, n / 10);
    }
    out.push(digit_char_exec(n % 10));
    proof {
        if n < 10 {
            assert(n % 10 == n);
            assert(digits(n as nat) =~= seq![digit_char(n as nat)]);
        }
    }
}

/// Appends `n` zero-padded to two places.
pub fn push_pad2(out: &mut Vec<char>, n: u64)
    ensures
        final(out)@ == old(out)@ + pad2(n as nat),
{
    if n < 10 {
        out.push('0');
        out.push(digit_char_exec(n));
        assert(old(out)@.push('0').push(digit_char(n as nat)) =~= old(out)@ + pad2(n as nat));
    } else {
        push_digits(out, n);
    }
}

/// The decimal digits of `n`.
pub fn digits_of(n: u64) -> (r: Vec<char>)
    ensures
        r@ == digits(n as nat),
{
    let mut r: Vec<char> = Vec::new();
    push_digits(&mut r, n);
    assert(Seq::<char>::empty() + digits(n as nat) =~= digits(n as nat));
    r
}


/// The sign and digits of an integer written as `[+-]digits`.
pub open spec fn int_syntax(t: Seq<char>) -> Option<(bool, Seq<char>)> {
    let (neg, d) = if t.len() > 0 && t[0] == '-' {
        (true, t.drop_first())
    } else if t.len() > 0 && t[0] == '+' {
        (false, t.drop_first())
    } else {
        (false, t)
    };
    if d.len() > 0 && all_digits(d) {
        Some((neg, d))
    } else {
        None
    }
}

/// The value of an integer literal, capped to the range of `i64`.
pub open spec fn int_value_sat(neg: bool, d: Seq<char>) -> int {
    if neg {
        if dec(d) > 0x8000_0000_0000_0000 {
            i64::MIN as int
        } else {
            -(dec(d) as int)
        }
    } else if dec(d) > i64::MAX {
        i64::MAX as int
    } else {
        dec(d) as int
    }
}

/// Whether the value of an integer literal is within the range of `i64`.
pub open spec fn int_in_range(neg: bool, d: Seq<char>) -> bool {
    if neg {
        dec(d) <= 0x8000_0000_0000_0000
    } else {
        dec(d) <= i64::MAX
    }
}

/// Parses `[+-]digits`: the sign, whether the value fits in `i64`, and the
/// value capped to that range; `None` for anything else.
pub fn parse_int_saturating(t: &[char]) -> (r: Option<(bool, bool, i64)>)
    ensures
        match r {
            Some((neg, fits, v)) => match int_syntax(t@) {
                Some((sn, d)) => sn == neg && fits == int_in_range(neg, d) && v == int_value_sat(
                    neg,
                    d,
                ),
                None => false,
            },
            None => int_syntax(t@) is None,
        },
{
    let n = t.len();
    let (neg, from) = if n > 0 && t[0] == '-' {
        (true, 1usize)
    } else if n > 0 && t[0] == '+' {
        (false, 1usize)
    } else {
        (false, 0usize)
    };
    let d = copy_range(t, from, n);
    proof {
        if from == 1 {
            assert(d@ =~= t@.drop_first());
        } else {
            assert(d@ =~= t@);
        }
    }
    if d.len() == 0 || !all_digits_exec(d.as_slice()) {
        return None;
    }
    let v = dec_checked(d.as_slice());
    match v {
        None => Some((neg, false, if neg { i64::MIN } else { i64::MAX })),
        Some(u) => {
            if neg {
                if u > 0x8000_0000_0000_0000u64 {
                    Some((true, false, i64::MIN))
                } else if u == 0x8000_0000_0000_0000u64 {
                    Some((true, true, i64::MIN))
                } else {
                    Some((true, true, -(u as i64)))
                }
            } else if u > i64::MAX as u64 {
                Some((false, false, i64::MAX))
            } else {
                Some((false, true, u as i64))
            }
        },
    }
}

/// A signed integer in decimal.
pub open spec fn decimal(v: int) -> Seq<char> {
    if v < 0 {
        seq!['-'] + digits((-v) as nat)
    } else {
        digits(v as nat)
    }
}

/// Writes a signed integer in decimal.
pub fn decimal_exec(v: i64) -> (r: Vec<char>)
    ensures
        r@ == decimal(v as int),
{
    if v < 0 {
        let mut out: Vec<char> = Vec::new();
        out.push('-');
        let m: u64 = if v == i64::MIN {
            0x8000_0000_0000_0000u64
        } else {
            (-v) as u64
        };
        let d = digits_of(m);
        push_all(&mut out, d.as_slice());
        assert(out@ =~= seq!['-'] + digits((-v) as nat));
        out
    } else {
        digits_of(v as u64)
    }
}

} // verus!
