//! The Emu Bay Railway game: board, parameters, state, actions.

pub mod board;
pub mod company;
pub mod params;
pub mod actions;
pub mod state;
pub mod spec;
pub mod queries;
pub mod network;
pub mod building;
pub mod eligibility;
pub mod dividend;
pub mod transitions;
pub mod execute;
pub mod permitted;
pub mod setup;
pub mod outcome;
pub mod laws;
pub mod summary;
pub mod play;

use vstd::prelude::*;

verus! {

/// Ceiling division, `(numerator + denominator - 1) / denominator` with
/// truncating division, for a positive denominator.
pub fn div_ceil(numerator: i64, denominator: i64) -> (r: i64)
    requires
        denominator > 0,
        i64::MIN <= numerator + denominator - 1,
        numerator + denominator <= i64::MAX,
    ensures
        r == spec::ceil_div(numerator as int, denominator as int),
{
    (numerator + denominator - 1) / denominator
}

/// `div_ceil` rounds up: for a positive denominator and a numerator above
/// `-denominator`, its result is the least `q` with `q * denominator` at
/// least the numerator. (Below that, truncating division rounds towards
/// zero instead: `div_ceil(-6, 3)` is `-1`.)
pub proof fn lemma_div_ceil_rounds_up(n: int, d: int)
    requires
        d > 0,
        n + d - 1 >= 0,
    ensures
        spec::ceil_div(n, d) * d >= n,
        (spec::ceil_div(n, d) - 1) * d < n,
{
    let q = spec::ceil_div(n, d);
    assert(q == (n + d - 1) / d);
    vstd::arithmetic::div_mod::lemma_fundamental_div_mod(n + d - 1, d);
    let r = (n + d - 1) % d;
    assert(0 <= r < d) by {
        vstd::arithmetic::div_mod::lemma_mod_bound(n + d - 1, d);
    }
    assert(q * d + r == n + d - 1) by {
        vstd::arithmetic::mul::lemma_mul_is_commutative(q, d);
    }
    assert((q - 1) * d == q * d - d) by {
        vstd::arithmetic::mul::lemma_mul_is_distributive_sub_other_way(d, q, 1);
    }
}

} // verus!
