//! The pure core of the CPU benchmark: the wrapping multiply-add that the
//! timed loops perform, the sum over an index range, and how the range is
//! split among worker threads. The timing, the thread pool, and the score
//! (a floating-point rate) live with the caller; what is computed is
//! specified here exactly.

use vstd::prelude::*;
use vstd::arithmetic::div_mod::lemma_fundamental_div_mod;
use vstd::wrapping::{u128_specs, usize_specs};

verus! {

/// One benchmark step: `value * value + value`, wrapping on overflow.
pub open spec fn mix(value: usize) -> usize {
    usize_specs::wrapping_add(usize_specs::wrapping_mul(value, value), value)
}

/// One benchmark step over `u128` indices: `value * value + value`,
/// wrapping on overflow.
pub open spec fn mix_u128(value: u128) -> u128 {
    u128_specs::wrapping_add(u128_specs::wrapping_mul(value, value), value)
}

/// Relies on `core::hint::black_box`: an identity function — its
/// documentation states that the argument is returned unchanged — whose
/// only effect is to keep the optimizer from folding the benchmark loop
/// away.
pub assume_specification<T>[ core::hint::black_box ](dummy: T) -> (r: T)
    ensures
        r == dummy,
;

/// Performs a `a * b + c` operation (`value * value + value`) with wrapping
/// and `black_box`, folding the result into `sum`.
pub fn compute(sum: &mut usize, value: usize)
    ensures
        *final(sum) == usize_specs::wrapping_add(*old(sum), mix(value)),
{
    *sum = sum.wrapping_add(core::hint::black_box(value.wrapping_mul(value).wrapping_add(value)));
}

/// The benchmark sum over the indices of `[start, end)`, each folded in by
/// the wrapping multiply-add.
pub open spec fn range_sum(start: u128, end: int) -> u128
    decreases end - start,
{
    if end <= start {
        0
    } else {
        u128_specs::wrapping_add(range_sum(start, end - 1), mix_u128((end - 1) as u128))
    }
}

/// Sums the wrapping multiply-add of every index in `[start, end)`.
pub fn compute_range(start: u128, end: u128) -> (sum: u128)
    ensures
        sum == range_sum(start, end as int),
{
    let mut sum: u128 = 0;
    let mut i: u128 = start;
    while i < end
        invariant
            start <= i,
            i <= end || i == start,
            sum == range_sum(start, i as int),
        decreases end - i,
    {
        sum = sum.wrapping_add(core::hint::black_box(i.wrapping_mul(i).wrapping_add(i)));
        i = i + 1;
    }
    sum
}

/// The slice of the iteration range `[0, total)` handed to worker `i` of
/// `n`: `n` chunks of `total / n` indices each, the last worker absorbing
/// the remainder. Consecutive slices tile the range: slice `i` ends where
/// slice `i + 1` begins, slice `0` begins at `0`, and the last ends at
/// `total`.
pub fn chunk_bounds(i: usize, n: usize, total: u128) -> (r: (u128, u128))
    requires
        0 < n,
        i < n,
    ensures
        r.0 == i * (total as int / n as int),
        i == n - 1 ==> r.1 == total,
        i < n - 1 ==> r.1 == (i + 1) * (total as int / n as int),
        r.0 <= r.1 <= total,
{
    let chunk: u128 = total / (n as u128);
    proof {
        lemma_fundamental_div_mod(total as int, n as u128 as int);
        assert(n as u128 as int * chunk as int <= total as int) by (nonlinear_arith)
            requires
                total as int == n as u128 as int * chunk as int + total as int % (
                n as u128 as int),
                total as int % (n as u128 as int) >= 0,
        ;
        assert(forall|a: int, b: int, c: int|
            0 <= a <= b && 0 <= c ==> #[trigger] (a * c) <= #[trigger] (b * c))
            by (nonlinear_arith);
        assert(i as int + 1 <= n as int);
        assert((i as u128 + 1) as int * chunk as int <= n as u128 as int * chunk as int);
        assert(i as int * chunk as int <= (i as u128 + 1) as int * chunk as int);
    }
    let start: u128 = (i as u128) * chunk;
    let end: u128 = if i == n - 1 {
        total
    } else {
        (i as u128 + 1) * chunk
    };
    (start, end)
}

} // verus!
