//! The order in which configured providers are asked.
use vstd::prelude::*;
use crate::config::PluginConfig;
use crate::config::providers::ProviderMode;

verus! {

pub const ROTATION_KEY: &'static str = "rotation:cursor";
pub const ROTATION_TTL_SECONDS: i64 = 3600;

/// The `n` positions from `start` on, wrapping around.
pub open spec fn rotated(n: nat, start: nat) -> Seq<usize> {
    Seq::new(n, |i: int| ((start + i) % (n as int)) as usize)
}

/// The positions of `n` providers starting at `cursor % n`, and the cursor
/// to keep for the next search (`None` when there is no provider).
pub fn rotate(n: usize, cursor: usize) -> (r: (Vec<usize>, Option<usize>))
    ensures
        n == 0 ==> r.0@.len() == 0 && r.1 is None,
        n > 0 ==> r.0@ == rotated(n as nat, (cursor % n) as nat) && r.1 == Some(
            ((cursor % n + 1) % (n as int)) as usize,
        ),
{
    if n == 0 {
        return (Vec::new(), None);
    }
    let start = cursor % n;
    let mut out: Vec<usize> = Vec::new();
    let mut i: usize = 0;
    while i < n
        invariant
            0 < n,
            start < n,
            i <= n,
            out@.len() == i,
            forall|j: int| 0 <= j < i ==> #[trigger] out@[j] == ((start + j) % (n as int)) as usize,
        decreases n - i,
    {
        let p = if i < n - start {
            start + i
        } else {
            i - (n - start)
        };
        proof {
            if start + i < n {
                assert((start + i) % (n as int) == start + i) by (nonlinear_arith)
                    requires
                        0 <= start + i < n,
                ;
            } else {
                assert((start + i) % (n as int) == start + i - n) by (nonlinear_arith)
                    requires
                        n <= start + i < 2 * n,
                ;
            }
        }
        out.push(p);
        i = i + 1;
    }
    assert(out@ =~= rotated(n as nat, start as nat));
    (out, Some((start + 1) % n))
}

/// The positions of the configured providers in the order they are asked:
/// as configured, or rotated from the stored cursor in rotation mode. The
/// second part is the cursor to store, in rotation mode only.
pub fn order_providers(cfg: &PluginConfig, cursor: usize) -> (r: (Vec<usize>, Option<usize>))
    ensures
        cfg.provider_mode != ProviderMode::Rotation ==> r.1 is None && r.0@ == Seq::new(
            cfg.providers@.len(),
            |i: int| i as usize,
        ),
        cfg.provider_mode == ProviderMode::Rotation ==> {
            let n = cfg.providers@.len();
            &&& n == 0 ==> r.0@.len() == 0 && r.1 is None
            &&& n > 0 ==> r.0@ == rotated(n, (cursor % (n as usize)) as nat) && r.1 == Some(
                ((cursor % (n as usize) + 1) % (n as int)) as usize,
            )
        },
{
    let n = cfg.providers.len();
    match cfg.provider_mode {
        ProviderMode::Rotation => rotate(n, cursor),
        _ => {
            let mut out: Vec<usize> = Vec::new();
            let mut i: usize = 0;
            while i < n
                invariant
                    i <= n,
                    out@.len() == i,
                    forall|j: int| 0 <= j < i ==> #[trigger] out@[j] == j as usize,
                decreases n - i,
            {
                out.push(i);
                i = i + 1;
            }
            assert(out@ =~= Seq::new(n as nat, |i: int| i as usize));
            (out, None)
        },
    }
}

/// Every provider is asked exactly once, whatever the mode and cursor.
pub proof fn rotation_is_a_permutation(n: nat, start: nat)
    requires
        n > 0,
        start < n,
    ensures
        forall|p: usize| (p as int) < n ==> #[trigger] rotated(n, start).contains(p),
        rotated(n, start).len() == n,
{
    assert forall|p: usize| (p as int) < n implies #[trigger] rotated(n, start).contains(p) by {
        let j: int = if p >= start {
            p - start
        } else {
            p + n - start
        };
        assert(0 <= j < n);
        assert((start + j) % (n as int) == p) by (nonlinear_arith)
            requires
                0 <= j < n,
                start < n,
                p < n,
                j == if p >= start {
                    p - start
                } else {
                    p + n - start
                },
        ;
        assert(rotated(n, start)[j] == p);
    }
}


/// Successive searches in rotation each start one provider further on,
/// wrapping round after the last: the cursor a search keeps makes the next
/// search start at the provider after the one this search started at.
pub proof fn each_search_starts_one_further(n: nat, cursor: nat)
    requires
        0 < n <= usize::MAX,
    ensures
        rotated(n, (cursor % n + 1) % n)[0] as int == (rotated(n, cursor % n)[0] as int + 1) % (
        n as int),
{
    let start = cursor % n;
    let next = (start + 1) % n;
    assert(next % n == next) by {
        vstd::arithmetic::div_mod::lemma_mod_twice((start + 1) as int, n as int);
    }
    assert(start % n == start) by {
        vstd::arithmetic::div_mod::lemma_mod_twice(cursor as int, n as int);
    }
    assert(rotated(n, start)[0] == start as usize);
    assert(rotated(n, next)[0] == next as usize);
}

} // verus!
