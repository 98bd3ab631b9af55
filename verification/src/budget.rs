//! How many samples a frame may take: the budget of the frame before, scaled
//! by how the time that a frame took compares with the time that it should
//! take.

use vstd::prelude::*;
use vstd::arithmetic::div_mod::{
    lemma_div_is_ordered,
    lemma_div_pos_is_pos,
    lemma_fundamental_div_mod,
    lemma_hoist_over_denominator,
};

verus! {

/// The budget that the formula gives, before it is cut to what a machine
/// word holds: `previous * 0.99 * target / measured`, rounded down.
///
/// The two durations are in the same unit, whichever it is. A frame that took
/// no time at all leaves no ratio to scale by: the budget is then without
/// limit if the old budget and the target are above zero, and zero if not.
pub open spec fn scaled_budget(previous: int, target: int, measured: int) -> int {
    if measured <= 0 {
        if previous * target > 0 {
            u64::MAX as int
        } else {
            0
        }
    } else {
        (99 * (previous * target)) / (100 * measured)
    }
}

/// The budget of the next frame: what the formula gives, but no more than a
/// machine word holds. It is never below zero.
pub open spec fn next_budget(previous: int, target: int, measured: int) -> int {
    if scaled_budget(previous, target, measured) > u64::MAX {
        u64::MAX as int
    } else {
        scaled_budget(previous, target, measured)
    }
}

/// Dividing ninety-nine times a number can be done on its quotient and its
/// remainder apart.
proof fn lemma_scale_by_parts(q: int, d: int)
    requires
        0 <= q,
        0 < d,
    ensures
        (99 * q) / d == 99 * (q / d) + (99 * (q % d)) / d,
        0 <= q / d,
        0 <= q % d < d,
        0 <= (99 * (q % d)) / d < 99,
{
    let a = q / d;
    let r = q % d;
    lemma_fundamental_div_mod(q, d);
    lemma_div_pos_is_pos(q, d);
    assert(0 <= r < d) by {
        vstd::arithmetic::div_mod::lemma_mod_pos_bound(q, d);
    }
    lemma_hoist_over_denominator(99 * r, 99 * a, d as nat);
    assert(99 * r + (99 * a) * d == 99 * q) by (nonlinear_arith)
        requires
            q == d * a + r,
    ;
    lemma_div_pos_is_pos(99 * r, d);
    assert((99 * r) / d < 99) by {
        assert(99 * r < 99 * d);
        vstd::arithmetic::div_mod::lemma_div_by_multiple_is_strongly_ordered(
            99 * r,
            99 * d,
            99,
            d,
        );
        vstd::arithmetic::div_mod::lemma_div_multiples_vanish(99, d);
    }
}

/// The sample budget of the next frame, from the budget of the frame before,
/// the time that a frame should take and the time that the last one took.
pub fn sample_budget(previous: u64, target: u64, measured: u64) -> (budget: u64)
    ensures
        budget == next_budget(previous as int, target as int, measured as int),
{
    if measured == 0 {
        if previous > 0 && target > 0 {
            assert(previous * target > 0) by (nonlinear_arith)
                requires
                    previous > 0,
                    target > 0,
            ;
            return u64::MAX;
        } else {
            assert(previous * target == 0) by (nonlinear_arith)
                requires
                    previous == 0 || target == 0,
            ;
            return 0;
        }
    }
    assert(previous * target <= 0xffff_ffff_ffff_ffff * 0xffff_ffff_ffff_ffff) by (nonlinear_arith)
        requires
            0 <= previous <= 0xffff_ffff_ffff_ffff,
            0 <= target <= 0xffff_ffff_ffff_ffff,
    ;
    let q: u128 = (previous as u128) * (target as u128);
    let d: u128 = 100 * (measured as u128);
    let a: u128 = q / d;
    let r: u128 = q % d;
    proof {
        lemma_scale_by_parts(q as int, d as int);
    }
    if a > u64::MAX as u128 {
        return u64::MAX;
    }
    let rest: u128 = (99 * r) / d;
    let total: u128 = 99 * a + rest;
    if total > u64::MAX as u128 {
        u64::MAX
    } else {
        total as u64
    }
}

/// A budget of zero stays zero, and a frame that took as long as it should
/// lowers the budget by a hundredth, rounded down.
pub proof fn lemma_budget_on_target(previous: int, target: int)
    requires
        target > 0,
        0 <= previous <= u64::MAX,
    ensures
        next_budget(0, target, target) == 0,
        next_budget(previous, target, target) == (99 * previous) / 100,
{
    assert((99 * (previous * target)) / (100 * target) == (99 * previous) / 100) by {
        assert(99 * (previous * target) == (99 * previous) * target) by (nonlinear_arith);
        vstd::arithmetic::div_mod::lemma_div_denominator(
            (99 * previous) * target,
            target,
            100,
        );
        vstd::arithmetic::div_mod::lemma_div_multiples_vanish(99 * previous, target);
        assert(target * (99 * previous) == (99 * previous) * target) by (nonlinear_arith);
        assert(target * 100 == 100 * target) by (nonlinear_arith);
    }
    assert(0 * target == 0) by (nonlinear_arith);
}

} // verus!
