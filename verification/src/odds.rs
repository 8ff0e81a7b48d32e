//! Display odds in basis points, derived from the two reserves.
//!
//! A share's price is inversely proportional to its own reserve: the YES
//! odds are `no_reserve * 10000 / total` and the NO odds are
//! `yes_reserve * 10000 / total`. The rounding residue of the two integer
//! divisions is added to the currently larger side, so the pair always sums
//! to exactly 10000. Degenerate reserve states fall back to fixed pairs.

use crate::pricing::BPS_DENOMINATOR;
use vstd::arithmetic::div_mod::{
    lemma_div_pos_is_pos, lemma_fundamental_div_mod, lemma_mod_division_less_than_divisor,
};
use vstd::arithmetic::mul::lemma_mul_nonnegative;
use vstd::prelude::*;

verus! {

/// The odds computation stays within 128-bit arithmetic.
pub open spec fn odds_fits(yes: int, no: int) -> bool {
    &&& yes + no <= u128::MAX
    &&& yes * 10000 <= u128::MAX
    &&& no * 10000 <= u128::MAX
}

/// The odds pair `(yes_bps, no_bps)` for reserves `(yes, no)`.
pub open spec fn spec_odds(yes: int, no: int) -> (int, int) {
    if yes == 0 && no == 0 {
        (5000int, 5000int)
    } else if yes == 0 {
        (0int, 10000int)
    } else if no == 0 {
        (10000int, 0int)
    } else {
        let total: int = yes + no;
        let yes_bps: int = no * 10000 / total;
        let no_bps: int = yes * 10000 / total;
        let residue: int = 10000 - (yes_bps + no_bps);
        if yes_bps >= no_bps {
            (yes_bps + residue, no_bps)
        } else {
            (yes_bps, no_bps + residue)
        }
    }
}

/// The rounded-down odds of a funded pool are non-negative and lose at most
/// one basis point between them.
proof fn lemma_raw_odds(yes: int, no: int)
    requires
        yes >= 1,
        no >= 1,
    ensures
        0 <= no * 10000 / (yes + no),
        0 <= yes * 10000 / (yes + no),
        9999 <= no * 10000 / (yes + no) + yes * 10000 / (yes + no) <= 10000,
{
    let total: int = yes + no;
    let yes_bps: int = no * 10000 / total;
    let no_bps: int = yes * 10000 / total;
    lemma_mul_nonnegative(no, 10000);
    lemma_mul_nonnegative(yes, 10000);
    lemma_div_pos_is_pos(no * 10000, total);
    lemma_div_pos_is_pos(yes * 10000, total);
    lemma_fundamental_div_mod(no * 10000, total);
    lemma_fundamental_div_mod(yes * 10000, total);
    lemma_mod_division_less_than_divisor(no * 10000, total);
    lemma_mod_division_less_than_divisor(yes * 10000, total);
    let m1: int = (no * 10000) % total;
    let m2: int = (yes * 10000) % total;
    assert(9999 <= yes_bps + no_bps <= 10000) by (nonlinear_arith)
        requires
            no * 10000 == total * yes_bps + m1,
            yes * 10000 == total * no_bps + m2,
            0 <= m1 < total,
            0 <= m2 < total,
            total == yes + no,
            yes >= 1,
            no >= 1,
    ;
}

/// The odds of any reserve state are a pair of basis-point values that sums
/// to exactly 10000.
pub proof fn lemma_odds_sum(yes: int, no: int)
    requires
        yes >= 0,
        no >= 0,
    ensures
        spec_odds(yes, no).0 + spec_odds(yes, no).1 == 10000,
        0 <= spec_odds(yes, no).0 <= 10000,
        0 <= spec_odds(yes, no).1 <= 10000,
{
    if yes >= 1 && no >= 1 {
        lemma_raw_odds(yes, no);
    }
}

/// Computes the odds pair for the reserves `(yes, no)`.
pub fn compute_odds(yes: u128, no: u128) -> (r: (u32, u32))
    requires
        odds_fits(yes as int, no as int),
    ensures
        r.0 as int == spec_odds(yes as int, no as int).0,
        r.1 as int == spec_odds(yes as int, no as int).1,
        r.0 + r.1 == 10000,
{
    proof {
        lemma_odds_sum(yes as int, no as int);
    }
    if yes == 0 && no == 0 {
        return (5000, 5000);
    }
    if yes == 0 {
        return (0, 10000);
    }
    if no == 0 {
        return (10000, 0);
    }
    let total: u128 = yes + no;
    let yes_bps_wide: u128 = no * BPS_DENOMINATOR / total;
    let no_bps_wide: u128 = yes * BPS_DENOMINATOR / total;
    proof {
        lemma_raw_odds(yes as int, no as int);
    }
    let yes_bps: u32 = yes_bps_wide as u32;
    let no_bps: u32 = no_bps_wide as u32;
    let total_bps: u32 = yes_bps + no_bps;
    let residue: u32 = 10000 - total_bps;
    if yes_bps >= no_bps {
        (yes_bps + residue, no_bps)
    } else {
        (yes_bps, no_bps + residue)
    }
}

} // verus!
