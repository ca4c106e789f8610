//! 64-bit FNV-1a hashing and fixed-width lowercase hexadecimal.
use vstd::prelude::*;

verus! {

pub const FNV_OFFSET: u64 = 0xcbf2_9ce4_8422_2325;

pub const FNV_PRIME: u64 = 0x0000_0100_0000_01b3;

pub open spec fn fnv_step(h: u64, b: u8) -> u64 {
    vstd::wrapping::u64_specs::wrapping_mul(h ^ (b as u64), FNV_PRIME)
}

/// FNV-1a of `bs` starting from the state `h`.
pub open spec fn fnv(h: u64, bs: Seq<u8>) -> u64
    decreases bs.len(),
{
    if bs.len() == 0 {
        h
    } else {
        fnv_step(fnv(h, bs.drop_last()), bs.last())
    }
}

pub proof fn lemma_fnv_concat(h: u64, a: Seq<u8>, b: Seq<u8>)
    ensures
        fnv(h, a + b) == fnv(fnv(h, a), b),
    decreases b.len(),
{
    if b.len() == 0 {
        assert(a + b =~= a);
    } else {
        lemma_fnv_concat(h, a, b.drop_last());
        assert((a + b).drop_last() =~= a + b.drop_last());
    }
}

/// Continues an FNV-1a hash over `bytes`.
pub fn fnv_mix(h: u64, bytes: &[u8]) -> (r: u64)
    ensures
        r == fnv(h, bytes@),
{
    let mut x = h;
    let mut i: usize = 0;
    while i < bytes.len()
        invariant
            i <= bytes@.len(),
            x == fnv(h, bytes@.take(i as int)),
        decreases bytes.len() - i,
    {
        assert(bytes@.take(i + 1).drop_last() =~= bytes@.take(i as int));
        x = (x ^ (bytes[i] as u64)).wrapping_mul(FNV_PRIME);
        i = i + 1;
    }
    assert(bytes@.take(bytes@.len() as int) =~= bytes@);
    x
}

pub open spec fn pow16(n: nat) -> nat
    decreases n,
{
    if n == 0 {
        1
    } else {
        16 * pow16((n - 1) as nat)
    }
}

pub proof fn lemma_pow16_pos(n: nat)
    ensures
        pow16(n) > 0,
    decreases n,
{
    if n > 0 {
        lemma_pow16_pos((n - 1) as nat);
    }
}

pub open spec fn hex_digit(n: nat) -> char {
    if n < 10 {
        ((n + 48) as u8) as char
    } else {
        ((n + 87) as u8) as char
    }
}

/// `format!("{:016x}", h)`.
pub open spec fn hex16(h: u64) -> Seq<char> {
    Seq::new(16, |i: int| hex_digit(((h as nat) / pow16((15 - i) as nat)) % 16))
}

pub fn hex16_chars(h: u64) -> (r: Vec<char>)
    ensures
        r@ == hex16(h),
{
    let mut out: Vec<char> = Vec::new();
    let mut d: u64 = 0x1000_0000_0000_0000;
    assert(pow16(15) == 0x1000_0000_0000_0000) by {
        reveal_with_fuel(pow16, 16);
    }
    let mut i: usize = 0;
    while i < 16
        invariant
            i <= 16,
            i < 16 ==> d == pow16((15 - i) as nat) && d > 0,
            out@ == hex16(h).take(i as int),
        decreases 16 - i,
    {
        let n = (h / d) % 16;
        let c = if n < 10 {
            ((n as u8) + 48u8) as char
        } else {
            ((n as u8) + 87u8) as char
        };
        assert(c == hex_digit(n as nat));
        out.push(c);
        assert(out@ =~= hex16(h).take(i + 1));
        proof {
            if i < 15 {
                assert(pow16((15 - i) as nat) == 16 * pow16((15 - (i + 1)) as nat));
                lemma_pow16_pos((15 - (i + 1)) as nat);
            }
        }
        d = d / 16;
        i = i + 1;
    }
    assert(hex16(h).take(16) =~= hex16(h));
    out
}

} // verus!
