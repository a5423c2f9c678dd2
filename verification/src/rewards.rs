use vstd::prelude::*;

use vstd::arithmetic::div_mod::{
    lemma_div_is_ordered, lemma_div_multiples_vanish, lemma_fundamental_div_mod,
    lemma_hoist_over_denominator,
};
use vstd::arithmetic::mul::lemma_mul_inequality;

verus! {

/// The creator's cut of a settled market's stake pool:
/// `floor(total * percentage / 100)`.
pub open spec fn spec_creator_reward(total: u128, percentage: u32) -> int {
    (total * percentage) / 100
}

/// Computes the creator's cut exactly, without overflowing the
/// intermediate product: `total` is split into hundreds and remainder, and
/// the two shares are divided separately.
pub fn creator_reward_amount(total: u128, percentage: u32) -> (r: u128)
    requires
        percentage <= 100,
    ensures
        r == spec_creator_reward(total, percentage),
        r <= total,
{
    let pct = percentage as u128;
    let q = total / 100;
    let rem = total % 100;
    proof {
        // q * pct stays within u128: q <= MAX / 100 and pct <= 100.
        assert(q * pct <= (u128::MAX as int / 100) * 100) by {
            lemma_mul_inequality(pct as int, 100, q as int);
            lemma_mul_inequality(q as int, u128::MAX as int / 100, 100);
        }
        assert((u128::MAX as int / 100) * 100 <= u128::MAX as int) by {
            lemma_div_is_ordered((u128::MAX as int / 100) * 100, u128::MAX as int, 100);
            lemma_div_multiples_vanish(u128::MAX as int / 100, 100);
        }
    }
    let high = q * pct;
    proof {
        assert(rem * pct <= 99 * 100) by (nonlinear_arith)
            requires
                0 <= rem < 100,
                0 <= pct <= 100,
        ;
    }
    let low = (rem * pct) / 100;
    proof {
        let t = total as int;
        let p = pct as int;
        // Hoisting the whole-hundreds share over the denominator gives the
        // exact floor of total * pct / 100.
        assert((rem * pct) as int / 100 + (q * pct) as int == (rem * pct + (q * pct) * 100) as int
            / 100) by {
            lemma_hoist_over_denominator((rem * pct) as int, (q * pct) as int, 100);
        }
        assert(t == 100 * (q as int) + (rem as int)) by {
            lemma_fundamental_div_mod(t, 100);
        }
        assert(rem * pct + (q * pct) * 100 == t * p) by (nonlinear_arith)
            requires
                t == 100 * (q as int) + (rem as int),
                p == pct as int,
        ;
        // The reward never exceeds the pool: total * pct <= total * 100.
        assert(t * p <= t * 100) by {
            lemma_mul_inequality(p, 100, t);
        }
        assert(t * p / 100 <= t * 100 / 100) by {
            lemma_div_is_ordered(t * p, t * 100, 100);
        }
        assert(t * 100 / 100 == t) by {
            lemma_div_multiples_vanish(t, 100);
        }
    }
    high + low
}

} // verus!
