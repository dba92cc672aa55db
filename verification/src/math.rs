//! Exact integer arithmetic on 128-bit amounts.

use vstd::prelude::*;
use vstd::arithmetic::div_mod::{
    lemma_div_is_ordered, lemma_fundamental_div_mod, lemma_fundamental_div_mod_converse,
};

verus! {

/// Nanoseconds in one second.
pub const NANOS_PER_SEC: u64 = 1_000_000_000;

/// The number of nanoseconds in `sec` seconds.
pub open spec fn nanos(sec: u32) -> int {
    sec as int * 1_000_000_000
}

/// Converts a duration in seconds to nanoseconds.
pub fn to_nano(sec: u32) -> (ns: u64)
    ensures
        ns as int == nanos(sec),
{
    let wide: u64 = sec as u64;
    wide * NANOS_PER_SEC
}

/// `a * num / denom`, the product taken first and the quotient rounded down.
pub open spec fn ratio(a: int, num: int, denom: int) -> int {
    (a * num) / denom
}

/// A value written as `q * d + r` with `0 <= r < d` has the quotient `q`.
proof fn lemma_quotient(x: int, d: int, q: int, r: int)
    requires
        d > 0,
        0 <= r < d,
        x == q * d + r,
    ensures
        x / d == q,
{
    lemma_fundamental_div_mod_converse(x, d, q, r);
}

/// A value of at least `q * d` has a quotient of at least `q`.
proof fn lemma_quotient_at_least(x: int, d: int, q: int)
    requires
        d > 0,
        x >= q * d,
    ensures
        x / d >= q,
{
    lemma_quotient(q * d, d, q, 0);
    lemma_div_is_ordered(q * d, x, d);
}

/// Adding two values that are written as quotient and remainder.
proof fn lemma_add_parts(a: int, x: int, y: int, d: int, q1: int, r1: int, q2: int, r2: int)
    requires
        a * x == q1 * d + r1,
        a * y == q2 * d + r2,
    ensures
        a * (x + y) == (q1 + q2) * d + (r1 + r2),
        a * (x + y) == (q1 + q2 + 1) * d + (r1 + r2 - d),
{
    assert(a * (x + y) == a * x + a * y) by (nonlinear_arith);
    assert((q1 + q2) * d == q1 * d + q2 * d) by (nonlinear_arith);
    assert((q1 + q2 + 1) * d == q1 * d + q2 * d + d) by (nonlinear_arith);
}

/// The low bit of a multiplier goes over to the part that is done.
proof fn lemma_split_bit(l: int, half: int, bit: int, pk: int, done: int)
    requires
        l == 2 * half + bit,
    ensures
        l * pk + done == half * (2 * pk) + (done + bit * pk),
{
    assert((2 * half + bit) * pk == half * (2 * pk) + bit * pk) by (nonlinear_arith);
}

/// A product does not shrink when the second factor grows.
proof fn lemma_product_ordered(a: int, x: int, y: int)
    requires
        0 <= a,
        x <= y,
    ensures
        a * x <= a * y,
{
    assert(a * x <= a * y) by (nonlinear_arith)
        requires
            0 <= a,
            x <= y,
    ;
}

/// What is left of a multiplier, times its weight, is at least the weight.
proof fn lemma_rest_at_least(l: int, pk: int)
    requires
        l >= 1,
        pk >= 0,
    ensures
        l * pk >= pk,
{
    assert(l * pk >= pk) by (nonlinear_arith)
        requires
            l >= 1,
            pk >= 0,
    ;
}

/// Computes `a * num / denom` without losing the high bits of the product.
///
/// The result is `None` when `denom` is zero or the quotient does not fit in 128 bits.
pub fn checked_ratio(a: u128, num: u128, denom: u128) -> (res: Option<u128>)
    ensures
        res == (if denom > 0 && ratio(a as int, num as int, denom as int) <= u128::MAX {
            Some(ratio(a as int, num as int, denom as int) as u128)
        } else {
            None
        }),
{
    if denom == 0 {
        return None;
    }
    // (step_q, step_r) is a * weight, (q, r) is a * done, both divided by denom
    let mut step_q: u128 = a / denom;
    let mut step_r: u128 = a % denom;
    let mut q: u128 = 0;
    let mut r: u128 = 0;
    let mut rest: u128 = num;
    let ghost mut weight: int = 1;
    let ghost mut done: int = 0;
    proof {
        lemma_fundamental_div_mod(a as int, denom as int);
        assert(denom as int * (a as int / denom as int) == (a as int / denom as int) * denom as int)
            by (nonlinear_arith);
    }
    while rest > 0
        invariant
            denom > 0,
            weight >= 1,
            done >= 0,
            num as int == rest as int * weight + done,
            rest > 0 ==> a as int * weight == step_q as int * denom as int + step_r as int,
            step_r < denom,
            a as int * done == q as int * denom as int + r as int,
            r < denom,
        decreases rest,
    {
        let ghost total: int = a as int * num as int;
        proof {
            lemma_rest_at_least(rest as int, weight);
        }
        if rest % 2 == 1 {
            let wraps: bool = r >= denom - step_r;
            let r_next: u128 = if wraps {
                r - (denom - step_r)
            } else {
                r + step_r
            };
            let carry: u128 = if wraps {
                1
            } else {
                0
            };
            proof {
                lemma_add_parts(
                    a as int,
                    done,
                    weight,
                    denom as int,
                    q as int,
                    r as int,
                    step_q as int,
                    step_r as int,
                );
                lemma_product_ordered(a as int, done + weight, num as int);
                lemma_quotient_at_least(total, denom as int, q as int + step_q as int + carry as int);
            }
            let sum = match q.checked_add(step_q) {
                Some(s) => s,
                None => {
                    return None;
                },
            };
            let q_next = match sum.checked_add(carry) {
                Some(s) => s,
                None => {
                    return None;
                },
            };
            q = q_next;
            r = r_next;
            proof {
                done = done + weight;
            }
        }
        let half: u128 = rest / 2;
        proof {
            lemma_split_bit(
                rest as int,
                half as int,
                (rest % 2) as int,
                weight,
                if rest % 2 == 1 {
                    done - weight
                } else {
                    done
                },
            );
        }
        if half > 0 {
            let wraps: bool = step_r >= denom - step_r;
            let r_next: u128 = if wraps {
                step_r - (denom - step_r)
            } else {
                step_r + step_r
            };
            let carry: u128 = if wraps {
                1
            } else {
                0
            };
            proof {
                lemma_add_parts(
                    a as int,
                    weight,
                    weight,
                    denom as int,
                    step_q as int,
                    step_r as int,
                    step_q as int,
                    step_r as int,
                );
                lemma_rest_at_least(half as int, 2 * weight);
                lemma_product_ordered(a as int, 2 * weight, num as int);
                lemma_quotient_at_least(
                    total,
                    denom as int,
                    step_q as int + step_q as int + carry as int,
                );
            }
            let sum = match step_q.checked_add(step_q) {
                Some(s) => s,
                None => {
                    return None;
                },
            };
            let q_next = match sum.checked_add(carry) {
                Some(s) => s,
                None => {
                    return None;
                },
            };
            step_q = q_next;
            step_r = r_next;
        }
        rest = half;
        proof {
            weight = 2 * weight;
        }
    }
    proof {
        lemma_quotient(a as int * num as int, denom as int, q as int, r as int);
    }
    Some(q)
}

/// `a * num / denom` for arguments whose quotient fits in 128 bits.
pub fn u128_ratio(a: u128, num: u128, denom: u128) -> (res: u128)
    requires
        denom > 0,
        ratio(a as int, num as int, denom as int) <= u128::MAX,
    ensures
        res as int == ratio(a as int, num as int, denom as int),
{
    checked_ratio(a, num, denom).unwrap()
}

} // verus!
