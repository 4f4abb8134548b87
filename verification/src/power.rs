//! Powers of two: rounding up, and masking as a remainder.

use vstd::arithmetic::div_mod::lemma_mod_mod;
use vstd::arithmetic::power2::{
    lemma2_to64, lemma2_to64_rest, lemma_pow2_adds, lemma_pow2_pos, lemma_pow2_strictly_increases,
    lemma_pow2_unfold, pow2,
};
use vstd::bits::{lemma_u64_low_bits_mask_is_mod, low_bits_mask};
use vstd::prelude::*;

verus! {

/// The number of values of a `u64` counter.
pub open spec fn counter_span() -> int {
    0x1_0000_0000_0000_0000
}

/// `n` reduced into the range of a wrapping `u64` counter.
#[verifier::opaque]
pub open spec fn wrap(n: int) -> u64 {
    (n % counter_span()) as u64
}

/// One turn of the counter either way is undone by one addition.
pub broadcast proof fn lemma_wrap_near(n: int)
    requires
        -counter_span() <= n < 2 * counter_span(),
    ensures
        #[trigger] wrap(n) == if n < 0 {
            n + counter_span()
        } else if n < counter_span() {
            n
        } else {
            n - counter_span()
        },
{
    reveal(wrap);
}

/// `n` reduced into the range of a wrapping `u32` counter.
pub open spec fn wrap32(n: int) -> u32 {
    (n % 0x1_0000_0000) as u32
}

/// One more on a wrapping counter.
pub open spec fn inc(n: usize) -> usize {
    if n == usize::MAX {
        0
    } else {
        (n + 1) as usize
    }
}

/// One less on a wrapping counter.
pub open spec fn dec(n: usize) -> usize {
    if n == 0 {
        usize::MAX
    } else {
        (n - 1) as usize
    }
}

/// Whether `n` is a power of two.
pub open spec fn is_power_of_two(n: int) -> bool {
    exists|e: nat| n == #[trigger] pow2(e)
}

/// Whether `p` is the smallest power of two that is at least `n`.
pub open spec fn is_next_power_of_two(p: int, n: int) -> bool {
    &&& is_power_of_two(p)
    &&& n <= p
    &&& forall|e: nat| n <= #[trigger] pow2(e) ==> p <= pow2(e)
}

/// The largest capacity that can be rounded up to a power of two.
pub open spec fn max_rounded() -> int {
    usize::MAX / 2 + 1
}

/// The smallest power of two that is at least `n` (1 for `n == 0`).
pub fn next_power_of_two(n: usize) -> (p: usize)
    requires
        n <= max_rounded(),
    ensures
        is_next_power_of_two(p as int, n as int),
        p <= max_rounded(),
        p <= 1 || p < 2 * n,
{
    let mut p: usize = 1;
    let ghost mut e: nat = 0;
    proof {
        lemma2_to64();
        assert forall|f: nat| n <= #[trigger] pow2(f) implies p <= pow2(f) by {
            lemma_pow2_pos(f);
        }
    }
    while p < n
        invariant
            n <= max_rounded(),
            p == pow2(e),
            1 <= p <= max_rounded(),
            p <= 1 || p < 2 * n,
            forall|f: nat| n <= #[trigger] pow2(f) ==> p <= pow2(f),
        decreases 2 * n - p,
    {
        proof {
            lemma_pow2_unfold(e + 1);
            lemma2_to64();
            lemma2_to64_rest();
            assert(max_rounded() == pow2(31) || max_rounded() == pow2(63));
            assert forall|f: nat| n <= #[trigger] pow2(f) implies 2 * p <= pow2(f) by {
                if f <= e {
                    if f < e {
                        lemma_pow2_strictly_increases(f, e);
                    }
                } else if f > e + 1 {
                    lemma_pow2_strictly_increases(e + 1, f);
                }
            }
            e = e + 1;
        }
        p = p * 2;
    }
    p
}

/// A power of two that fits in a `u64` has an exponent below 64.
pub proof fn lemma_small_power(e: nat)
    requires
        pow2(e) < counter_span(),
    ensures
        e < 64,
{
    lemma2_to64_rest();
    if e > 64 {
        lemma_pow2_strictly_increases(64, e);
    }
}

/// Reducing a counter into `u64` range does not change its remainder by a
/// power of two.
pub proof fn lemma_wrap_mod(n: int, cap: int)
    requires
        is_power_of_two(cap),
        cap < counter_span(),
    ensures
        cap > 0,
        wrap(n) as int % cap == n % cap,
{
    reveal(wrap);
    let e = choose|e: nat| cap == pow2(e);
    lemma_small_power(e);
    lemma_pow2_pos(e);
    lemma_pow2_pos((64 - e) as nat);
    lemma_pow2_adds(e, (64 - e) as nat);
    lemma2_to64_rest();
    lemma_mod_mod(n, cap, pow2((64 - e) as nat) as int);
}

/// Masking with a power of two less one is the remainder by it.
pub proof fn lemma_mask(pos: u64, cap: u64)
    requires
        is_power_of_two(cap as int),
    ensures
        cap > 0,
        pos & ((cap - 1) as u64) == pos % cap,
{
    let e = choose|e: nat| cap as int == pow2(e);
    lemma_small_power(e);
    lemma_pow2_pos(e);
    lemma_u64_low_bits_mask_is_mod(pos, e);
    assert(low_bits_mask(e) == cap - 1);
}

/// Positions less than `cap` apart have different remainders by `cap`.
pub proof fn lemma_mod_distinct(a: int, b: int, cap: int)
    requires
        cap > 0,
        a < b < a + cap,
    ensures
        a % cap != b % cap,
{
    assert(a % cap != b % cap) by (nonlinear_arith)
        requires
            cap > 0,
            a < b < a + cap,
    ;
}

/// Positions `cap` apart have the same remainder by `cap`.
pub proof fn lemma_mod_period(a: int, cap: int)
    requires
        cap > 0,
    ensures
        (a + cap) % cap == a % cap,
{
    vstd::arithmetic::div_mod::lemma_mod_add_multiples_vanish(a, cap);
}

} // verus!
