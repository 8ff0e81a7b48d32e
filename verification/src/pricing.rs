//! Pure constant-product pricing.
//!
//! A trade against reserves `(reserve_in, reserve_out)` of size `amount_in`
//! pays out `amount_in * reserve_out / (reserve_in + amount_in)` (integer
//! division). Buys charge the basis-point fee on the way in, sells on the
//! way out. Because the quoted output is the rounded-down solution of
//! `(reserve_in + amount_in) * (reserve_out - out) >= reserve_in * reserve_out`,
//! applying a quote never decreases the reserve product.

use vstd::arithmetic::div_mod::{
    lemma_div_is_ordered, lemma_div_multiples_vanish, lemma_div_pos_is_pos,
    lemma_fundamental_div_mod, lemma_mod_division_less_than_divisor,
};
use vstd::arithmetic::mul::{lemma_mul_is_commutative, lemma_mul_nonnegative};
use vstd::prelude::*;

verus! {

/// Basis points in the whole: 10000 bps = 100%.
pub const BPS_DENOMINATOR: u128 = 10000;

/// The fee charged on `amount` at `fee_bps` basis points, rounded down.
pub open spec fn fee_of(amount: int, fee_bps: int) -> int {
    amount * fee_bps / 10000
}

/// The constant-product output for a trade of `amount_in` against the
/// reserves `(reserve_in, reserve_out)`, rounded down.
pub open spec fn cpmm_out(reserve_in: int, reserve_out: int, amount_in: int) -> int {
    amount_in * reserve_out / (reserve_in + amount_in)
}

/// The buy-side quote stays within 128-bit arithmetic.
pub open spec fn quote_buy_fits(
    reserve_in: int,
    reserve_out: int,
    amount_in: int,
    fee_bps: int,
) -> bool {
    let after: int = amount_in - fee_of(amount_in, fee_bps);
    &&& amount_in * fee_bps <= u128::MAX
    &&& reserve_in + after <= u128::MAX
    &&& after * reserve_out <= u128::MAX
}

/// The sell-side quote stays within 128-bit arithmetic.
pub open spec fn quote_sell_fits(
    reserve_in: int,
    reserve_out: int,
    shares_in: int,
    fee_bps: int,
) -> bool {
    &&& reserve_in + shares_in <= u128::MAX
    &&& shares_in * reserve_out <= u128::MAX
    &&& cpmm_out(reserve_in, reserve_out, shares_in) * fee_bps <= u128::MAX
}

/// Quote for buying shares: the fee is skimmed from `amount_in` first, and
/// the remainder is priced by the constant-product rule.
///
/// Returns `(fee_amount, shares_out)`.
pub fn quote_buy(reserve_in: u128, reserve_out: u128, amount_in: u128, fee_bps: u32) -> (r: (
    u128,
    u128,
))
    requires
        fee_bps <= 10000,
        reserve_in >= 1,
        quote_buy_fits(reserve_in as int, reserve_out as int, amount_in as int, fee_bps as int),
    ensures
        r.0 as int == fee_of(amount_in as int, fee_bps as int),
        r.0 <= amount_in,
        r.1 as int == cpmm_out(reserve_in as int, reserve_out as int, amount_in - r.0),
        r.1 <= reserve_out,
        reserve_out >= 1 ==> r.1 < reserve_out,
{
    proof {
        lemma_fee_bounds(amount_in as int, fee_bps as int);
    }
    let fee_amount: u128 = amount_in * (fee_bps as u128) / BPS_DENOMINATOR;
    let amount_after_fee: u128 = amount_in - fee_amount;
    let denominator: u128 = reserve_in + amount_after_fee;
    proof {
        lemma_cpmm_out_bounds(reserve_in as int, reserve_out as int, amount_after_fee as int);
    }
    let shares_out: u128 = amount_after_fee * reserve_out / denominator;
    (fee_amount, shares_out)
}

/// Quote for selling shares back: the gross payout is priced by the
/// constant-product rule, and the fee is skimmed from that payout.
///
/// Returns `(payout_gross, fee_amount, payout_net)`.
pub fn quote_sell(reserve_in: u128, reserve_out: u128, shares_in: u128, fee_bps: u32) -> (r: (
    u128,
    u128,
    u128,
))
    requires
        fee_bps <= 10000,
        reserve_in >= 1,
        quote_sell_fits(reserve_in as int, reserve_out as int, shares_in as int, fee_bps as int),
    ensures
        r.0 as int == cpmm_out(reserve_in as int, reserve_out as int, shares_in as int),
        r.0 <= reserve_out,
        reserve_out >= 1 ==> r.0 < reserve_out,
        r.1 as int == fee_of(r.0 as int, fee_bps as int),
        r.1 <= r.0,
        r.2 == r.0 - r.1,
{
    let denominator: u128 = reserve_in + shares_in;
    proof {
        lemma_cpmm_out_bounds(reserve_in as int, reserve_out as int, shares_in as int);
    }
    let payout_gross: u128 = shares_in * reserve_out / denominator;
    proof {
        lemma_fee_bounds(payout_gross as int, fee_bps as int);
    }
    let fee_amount: u128 = payout_gross * (fee_bps as u128) / BPS_DENOMINATOR;
    let payout_net: u128 = payout_gross - fee_amount;
    (payout_gross, fee_amount, payout_net)
}

/// The fee never exceeds the amount it is charged on, and is at least one
/// unit once `amount * fee_bps` reaches a whole basis-point denominator.
pub proof fn lemma_fee_bounds(amount: int, fee_bps: int)
    requires
        0 <= amount,
        0 <= fee_bps <= 10000,
    ensures
        0 <= fee_of(amount, fee_bps) <= amount,
        amount * fee_bps >= 10000 ==> fee_of(amount, fee_bps) >= 1,
{
    lemma_mul_nonnegative(amount, fee_bps);
    lemma_div_pos_is_pos(amount * fee_bps, 10000);
    lemma_mul_is_commutative(amount, fee_bps);
    lemma_mul_inequality_helper(fee_bps, 10000, amount);
    lemma_div_is_ordered(amount * fee_bps, 10000 * amount, 10000);
    lemma_div_multiples_vanish(amount, 10000);
    if amount * fee_bps >= 10000 {
        lemma_div_is_ordered(10000, amount * fee_bps, 10000);
    }
}

/// `x <= y` and `0 <= z` give `x * z <= y * z`.
proof fn lemma_mul_inequality_helper(x: int, y: int, z: int)
    requires
        x <= y,
        0 <= z,
    ensures
        x * z <= y * z,
{
    vstd::arithmetic::mul::lemma_mul_inequality(x, y, z);
}

/// Bounds on the constant-product output: it is non-negative, never exceeds
/// the output reserve, and leaves the output reserve funded whenever the
/// input reserve is. The final clause is the defining floor property.
pub proof fn lemma_cpmm_out_bounds(reserve_in: int, reserve_out: int, amount_in: int)
    requires
        reserve_in >= 1,
        reserve_out >= 0,
        amount_in >= 0,
    ensures
        0 <= cpmm_out(reserve_in, reserve_out, amount_in),
        cpmm_out(reserve_in, reserve_out, amount_in) <= reserve_out,
        reserve_out >= 1 ==> cpmm_out(reserve_in, reserve_out, amount_in) < reserve_out,
        (reserve_in + amount_in) * cpmm_out(reserve_in, reserve_out, amount_in) <= amount_in
            * reserve_out,
{
    let d: int = reserve_in + amount_in;
    let s: int = cpmm_out(reserve_in, reserve_out, amount_in);
    lemma_mul_nonnegative(amount_in, reserve_out);
    lemma_div_pos_is_pos(amount_in * reserve_out, d);
    lemma_fundamental_div_mod(amount_in * reserve_out, d);
    lemma_mod_division_less_than_divisor(amount_in * reserve_out, d);
    let m: int = (amount_in * reserve_out) % d;
    assert(s <= reserve_out && (reserve_out >= 1 ==> s < reserve_out) && d * s <= amount_in
        * reserve_out) by (nonlinear_arith)
        requires
            amount_in * reserve_out == d * s + m,
            0 <= m < d,
            d == reserve_in + amount_in,
            reserve_in >= 1,
            reserve_out >= 0,
            amount_in >= 0,
            0 <= s,
    ;
}

/// Applying a constant-product quote never decreases the reserve product:
/// the input reserve grows by the full `amount_in` while the output reserve
/// shrinks by the rounded-down output.
pub proof fn lemma_cpmm_k_non_decreasing(reserve_in: int, reserve_out: int, amount_in: int)
    requires
        reserve_in >= 1,
        reserve_out >= 0,
        amount_in >= 0,
    ensures
        (reserve_in + amount_in) * (reserve_out - cpmm_out(reserve_in, reserve_out, amount_in))
            >= reserve_in * reserve_out,
{
    let d: int = reserve_in + amount_in;
    let s: int = cpmm_out(reserve_in, reserve_out, amount_in);
    lemma_mul_nonnegative(amount_in, reserve_out);
    lemma_div_pos_is_pos(amount_in * reserve_out, d);
    lemma_fundamental_div_mod(amount_in * reserve_out, d);
    lemma_mod_division_less_than_divisor(amount_in * reserve_out, d);
    let m: int = (amount_in * reserve_out) % d;
    assert(d * (reserve_out - s) >= reserve_in * reserve_out) by (nonlinear_arith)
        requires
            amount_in * reserve_out == d * s + m,
            0 <= m < d,
            d == reserve_in + amount_in,
            reserve_in >= 1,
            reserve_out >= 0,
            amount_in >= 0,
    ;
}

/// Round-trip loss: buying with `amount_in` and immediately selling the
/// resulting shares back pays out no more than the fee-reduced input,
/// strictly less than `amount_in` whenever the buy fee is at least one
/// unit, and the whole gap is at most the two fees plus a rounding term of
/// about one share's price, `(reserve_in + after) / reserve_out + 1`.
pub proof fn lemma_round_trip_loss(reserve_in: int, reserve_out: int, amount_in: int, fee_bps: int)
    requires
        reserve_in >= 1,
        reserve_out >= 1,
        amount_in >= 0,
        0 <= fee_bps <= 10000,
    ensures
        ({
            let fee1: int = fee_of(amount_in, fee_bps);
            let after: int = amount_in - fee1;
            let shares: int = cpmm_out(reserve_in, reserve_out, after);
            let gross: int = cpmm_out(reserve_out - shares, reserve_in + after, shares);
            let fee2: int = fee_of(gross, fee_bps);
            let net: int = gross - fee2;
            &&& net <= amount_in - fee1
            &&& fee1 >= 1 ==> net < amount_in
            &&& amount_in - net <= fee1 + fee2 + (reserve_in + after) / reserve_out + 1
        }),
{
    let fee1: int = fee_of(amount_in, fee_bps);
    let after: int = amount_in - fee1;
    let shares: int = cpmm_out(reserve_in, reserve_out, after);
    let gross: int = cpmm_out(reserve_out - shares, reserve_in + after, shares);
    lemma_fee_bounds(amount_in, fee_bps);
    lemma_cpmm_out_bounds(reserve_in, reserve_out, after);
    // The sell denominator is the buy's output reserve: the shares come
    // back to the reserve they were drawn from.
    assert((reserve_out - shares) + shares == reserve_out);
    assert(gross == shares * (reserve_in + after) / reserve_out);
    lemma_mul_is_commutative(reserve_in + after, shares);
    lemma_div_is_ordered(shares * (reserve_in + after), after * reserve_out, reserve_out);
    lemma_mul_is_commutative(after, reserve_out);
    lemma_div_multiples_vanish(after, reserve_out);
    assert(gross <= after);
    lemma_mul_nonnegative(shares, reserve_in + after);
    lemma_div_pos_is_pos(shares * (reserve_in + after), reserve_out);
    lemma_fee_bounds(gross, fee_bps);
    // The rounding gap: both divisions floor, and together they lose less
    // than the price of one share plus one unit.
    let d1: int = reserve_in + after;
    lemma_fundamental_div_mod(after * reserve_out, d1);
    lemma_mod_division_less_than_divisor(after * reserve_out, d1);
    let m1: int = (after * reserve_out) % d1;
    lemma_fundamental_div_mod(shares * d1, reserve_out);
    lemma_mod_division_less_than_divisor(shares * d1, reserve_out);
    let m2: int = (shares * d1) % reserve_out;
    lemma_fundamental_div_mod(d1, reserve_out);
    lemma_mod_division_less_than_divisor(d1, reserve_out);
    let price: int = d1 / reserve_out;
    let mr: int = d1 % reserve_out;
    assert(after - gross <= price + 1) by (nonlinear_arith)
        requires
            after * reserve_out == d1 * shares + m1,
            0 <= m1 < d1,
            shares * d1 == reserve_out * gross + m2,
            0 <= m2 < reserve_out,
            d1 == reserve_out * price + mr,
            0 <= mr < reserve_out,
            d1 == reserve_in + after,
            reserve_in >= 1,
            reserve_out >= 1,
            after >= 0,
    ;
}

} // verus!
