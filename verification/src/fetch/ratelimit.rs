//! Remembering how long a provider asked to be left alone.
use vstd::prelude::*;
use crate::text::{chars_of, push_all, string_of};

verus! {

pub const KEY_PREFIX: &'static str = "ratelimit:";

/// The cache key under which a provider's deadline is kept.
pub fn key(provider_id: &str) -> (r: String)
    ensures
        r@ == KEY_PREFIX@ + provider_id@,
{
    let mut out = chars_of(KEY_PREFIX);
    push_all(&mut out, chars_of(provider_id).as_slice());
    string_of(out.as_slice())
}

/// The seconds left before a deadline, if it lies ahead.
pub open spec fn wait_left(deadline: int, now: int) -> Option<int> {
    if deadline > now {
        Some(deadline - now)
    } else {
        None
    }
}

/// The deadline `w` seconds after `now`, held to the range of `i64`.
pub open spec fn deadline_of(now: int, w: int) -> int {
    if now + w > i64::MAX {
        i64::MAX as int
    } else if now + w < i64::MIN {
        i64::MIN as int
    } else {
        now + w
    }
}

/// The seconds left before a deadline, if it lies ahead.
pub fn time_left(deadline: i64, now: i64) -> (r: Option<i64>)
    requires
        deadline > now ==> deadline - now <= i64::MAX,
    ensures
        match r {
            Some(w) => wait_left(deadline as int, now as int) == Some(w as int),
            None => wait_left(deadline as int, now as int) is None,
        },
{
    if deadline > now {
        Some((deadline as i128 - now as i128) as i64)
    } else {
        None
    }
}

/// The deadline a wait of `retry_after_secs` from `now` gives, saturating at
/// the ends of the range of `i64`.
pub fn deadline_after(now: i64, retry_after_secs: i64) -> (r: i64)
    ensures
        r == deadline_of(now as int, retry_after_secs as int),
{
    let s = now as i128 + retry_after_secs as i128;
    if s > i64::MAX as i128 {
        i64::MAX
    } else if s < i64::MIN as i128 {
        i64::MIN
    } else {
        s as i64
    }
}


/// Each provider gets its own deadline: two providers with different ids
/// are kept under different keys.
pub proof fn each_provider_gets_its_own_key(a: Seq<char>, b: Seq<char>)
    ensures
        KEY_PREFIX@ + a == KEY_PREFIX@ + b ==> a == b,
{
    if KEY_PREFIX@ + a == KEY_PREFIX@ + b {
        let n = KEY_PREFIX@.len() as int;
        assert(a =~= (KEY_PREFIX@ + a).skip(n));
        assert(b =~= (KEY_PREFIX@ + b).skip(n));
    }
}

/// A wait that is recorded reads back: a deadline set `w` seconds after
/// `now` (within the range of `i64`) leaves `w` seconds at `now`, fewer as
/// time passes, and none once `w` seconds have passed.
pub proof fn a_recorded_wait_reads_back(now: int, w: int, later: int)
    requires
        w > 0,
        i64::MIN <= now,
        now + w <= i64::MAX,
        now <= later,
    ensures
        wait_left(deadline_of(now, w), now) == Some(w),
        later < now + w ==> wait_left(deadline_of(now, w), later) == Some(w - (later - now)),
        later >= now + w ==> wait_left(deadline_of(now, w), later) is None,
{
}

} // verus!
