//! Constant-product swap pricing (`x * y = k`) with a protocol fee in basis
//! points.

use vstd::arithmetic::div_mod::{lemma_fundamental_div_mod, lemma_mod_pos_bound};
use crate::lp::{lemma_floor_div_bounds, lemma_floor_div_unique};
use vstd::prelude::*;

verus! {

/// Basis points in one whole: a fee of `MAX_BPS` would take the entire input.
pub const MAX_BPS: i128 = 10000;

/// The protocol fee taken from `amount_in`, rounded down.
pub open spec fn swap_fee(amount_in: int, fee_bps: int) -> int {
    amount_in * fee_bps / 10000
}

/// The part of `amount_in` that enters the pricing formula once the fee is taken.
pub open spec fn net_input(amount_in: int, fee_bps: int) -> int {
    amount_in - swap_fee(amount_in, fee_bps)
}

/// The output of a constant-product swap, rounded down:
/// `net * reserve_out / (reserve_in + net)`.
pub open spec fn swap_output(reserve_in: int, reserve_out: int, amount_in: int, fee_bps: int) -> int {
    let net = net_input(amount_in, fee_bps);
    net * reserve_out / (reserve_in + net)
}

/// The inputs on which the swap formula is defined: positive reserves and
/// input, a fee below one whole.
pub open spec fn swap_inputs_valid(reserve_in: int, reserve_out: int, amount_in: int, fee_bps: int) -> bool {
    &&& reserve_in > 0
    &&& reserve_out > 0
    &&& amount_in > 0
    &&& 0 <= fee_bps < 10000
}

/// Every intermediate product and sum of the swap formula fits in an `i128`.
pub open spec fn swap_fits_i128(reserve_in: int, reserve_out: int, amount_in: int, fee_bps: int) -> bool {
    &&& amount_in * fee_bps <= i128::MAX
    &&& net_input(amount_in, fee_bps) * reserve_out <= i128::MAX
    &&& reserve_in + net_input(amount_in, fee_bps) <= i128::MAX
}

/// The fee is a part of the input, and the net input is positive.
pub proof fn lemma_net_input_bounds(amount_in: int, fee_bps: int)
    requires
        amount_in > 0,
        0 <= fee_bps < 10000,
    ensures
        0 <= swap_fee(amount_in, fee_bps) < amount_in,
        0 < net_input(amount_in, fee_bps) <= amount_in,
{
    let p = amount_in * fee_bps;
    assert(0 <= p < amount_in * 10000) by (nonlinear_arith)
        requires
            amount_in > 0,
            0 <= fee_bps < 10000,
            p == amount_in * fee_bps,
    ;
    lemma_fundamental_div_mod(p, 10000);
    lemma_mod_pos_bound(p, 10000);
}

/// What a swap pays out, in terms of its inputs alone: the fee `f` is
/// `amount_in * fee_bps / 10000` rounded down, the net input is
/// `amount_in - f`, and the output `o` is the largest amount with
/// `o * (reserve_in + net) <= net * reserve_out`.
pub proof fn lemma_swap_output_is_floor(reserve_in: int, reserve_out: int, amount_in: int, fee_bps: int)
    requires
        swap_inputs_valid(reserve_in, reserve_out, amount_in, fee_bps),
    ensures
        ({
            let f = swap_fee(amount_in, fee_bps);
            let net = net_input(amount_in, fee_bps);
            let o = swap_output(reserve_in, reserve_out, amount_in, fee_bps);
            &&& f * 10000 <= amount_in * fee_bps < (f + 1) * 10000
            &&& net == amount_in - f
            &&& o * (reserve_in + net) <= net * reserve_out < (o + 1) * (reserve_in + net)
        }),
{
    lemma_net_input_bounds(amount_in, fee_bps);
    lemma_floor_div_bounds(amount_in * fee_bps, 10000);
    let net = net_input(amount_in, fee_bps);
    lemma_floor_div_bounds(net * reserve_out, reserve_in + net);
}

/// A fee `fee` and an output `out` that satisfy the defining inequalities of
/// [`lemma_swap_output_is_floor`] are the swap's fee and output.
pub proof fn lemma_swap_output_unique(
    reserve_in: int,
    reserve_out: int,
    amount_in: int,
    fee_bps: int,
    fee: int,
    out: int,
)
    requires
        swap_inputs_valid(reserve_in, reserve_out, amount_in, fee_bps),
        fee * 10000 <= amount_in * fee_bps < (fee + 1) * 10000,
        out * (reserve_in + amount_in - fee) <= (amount_in - fee) * reserve_out < (out + 1) * (
        reserve_in + amount_in - fee),
    ensures
        fee == swap_fee(amount_in, fee_bps),
        amount_in - fee == net_input(amount_in, fee_bps),
        out == swap_output(reserve_in, reserve_out, amount_in, fee_bps),
{
    lemma_floor_div_unique(amount_in * fee_bps, 10000, fee);
    lemma_net_input_bounds(amount_in, fee_bps);
    lemma_floor_div_unique((amount_in - fee) * reserve_out, reserve_in + amount_in - fee, out);
}

/// A swap never pays out the whole reserve, and never lowers the product of
/// the reserves: `(reserve_in + net) * (reserve_out - out) >= reserve_in * reserve_out`.
pub proof fn lemma_swap_keeps_product(reserve_in: int, reserve_out: int, amount_in: int, fee_bps: int)
    requires
        swap_inputs_valid(reserve_in, reserve_out, amount_in, fee_bps),
    ensures
        0 <= swap_output(reserve_in, reserve_out, amount_in, fee_bps) < reserve_out,
        (reserve_in + net_input(amount_in, fee_bps)) * (reserve_out - swap_output(
            reserve_in,
            reserve_out,
            amount_in,
            fee_bps,
        )) >= reserve_in * reserve_out,
        (reserve_in + amount_in) * (reserve_out - swap_output(reserve_in, reserve_out, amount_in, fee_bps))
            >= reserve_in * reserve_out,
{
    lemma_net_input_bounds(amount_in, fee_bps);
    let net = net_input(amount_in, fee_bps);
    let d = reserve_in + net;
    let num = net * reserve_out;
    let out = swap_output(reserve_in, reserve_out, amount_in, fee_bps);
    assert(num >= 0) by (nonlinear_arith)
        requires
            net > 0,
            reserve_out > 0,
            num == net * reserve_out,
    ;
    lemma_fundamental_div_mod(num, d);
    lemma_mod_pos_bound(num, d);
    assert(out == num / d);
    assert(0 <= out < reserve_out && d * out <= num) by (nonlinear_arith)
        requires
            num == d * out + num % d,
            0 <= num % d < d,
            num == net * reserve_out,
            d == reserve_in + net,
            reserve_in > 0,
            net > 0,
            reserve_out > 0,
    ;
    assert(d * (reserve_out - out) >= reserve_in * reserve_out) by (nonlinear_arith)
        requires
            d * out <= num,
            num == net * reserve_out,
            d == reserve_in + net,
    ;
    assert((reserve_in + amount_in) * (reserve_out - out) >= d * (reserve_out - out))
        by (nonlinear_arith)
        requires
            d == reserve_in + net,
            net <= amount_in,
            out < reserve_out,
    ;
}

/// `out = net * reserve_out / (reserve_in + net)` rounded down, with `net`
/// at most `amount`, is worth at most `amount` at the ratio after the swap:
/// `out * (reserve_in + amount) <= amount * reserve_out`.
proof fn lemma_output_below_spot_value(reserve_in: int, reserve_out: int, net: int, amount: int, out: int)
    requires
        reserve_in > 0,
        reserve_out > 0,
        0 < net <= amount,
        out == net * reserve_out / (reserve_in + net),
    ensures
        out * (reserve_in + amount) <= amount * reserve_out,
{
    let d = reserve_in + net;
    let num = net * reserve_out;
    assert(num >= 0) by (nonlinear_arith)
        requires
            num == net * reserve_out,
            net > 0,
            reserve_out > 0,
    ;
    lemma_fundamental_div_mod(num, d);
    lemma_mod_pos_bound(num, d);
    assert(out * d <= num) by (nonlinear_arith)
        requires
            num == d * out + num % d,
            0 <= num % d,
    ;
    assert(net * (reserve_in + amount) <= amount * d) by (nonlinear_arith)
        requires
            d == reserve_in + net,
            net <= amount,
            reserve_in > 0,
    ;
    assert(out >= 0) by (nonlinear_arith)
        requires
            out * d <= num,
            num == d * out + num % d,
            num % d < d,
            num >= 0,
            d > 0,
    ;
    assert(out * d * (reserve_in + amount) <= amount * reserve_out * d) by (nonlinear_arith)
        requires
            out * d <= net * reserve_out,
            net * (reserve_in + amount) <= amount * d,
            out >= 0,
            reserve_in + amount > 0,
            reserve_out > 0,
    ;
    assert(out * (reserve_in + amount) <= amount * reserve_out) by (nonlinear_arith)
        requires
            out * d * (reserve_in + amount) <= amount * reserve_out * d,
            d > 0,
    ;
}

/// Swapping `amount_in` one way and the whole output straight back never
/// returns more than `amount_in`: no round trip gains.
pub proof fn lemma_round_trip_never_gains(reserve_a: int, reserve_b: int, amount_in: int, fee_bps: int)
    requires
        swap_inputs_valid(reserve_a, reserve_b, amount_in, fee_bps),
        swap_output(reserve_a, reserve_b, amount_in, fee_bps) > 0,
    ensures
        ({
            let out = swap_output(reserve_a, reserve_b, amount_in, fee_bps);
            swap_output(reserve_b - out, reserve_a + amount_in, out, fee_bps) <= amount_in
        }),
{
    let out = swap_output(reserve_a, reserve_b, amount_in, fee_bps);
    lemma_swap_keeps_product(reserve_a, reserve_b, amount_in, fee_bps);
    lemma_net_input_bounds(amount_in, fee_bps);
    lemma_net_input_bounds(out, fee_bps);
    let back = swap_output(reserve_b - out, reserve_a + amount_in, out, fee_bps);
    lemma_output_below_spot_value(reserve_a, reserve_b, net_input(amount_in, fee_bps), amount_in, out);
    lemma_output_below_spot_value(
        reserve_b - out,
        reserve_a + amount_in,
        net_input(out, fee_bps),
        out,
        back,
    );
    assert(back <= amount_in) by (nonlinear_arith)
        requires
            back * reserve_b <= out * (reserve_a + amount_in),
            out * (reserve_a + amount_in) <= amount_in * reserve_b,
            reserve_b > 0,
    ;
}

/// The amount of the other token paid out for `amount_in`, after the fee,
/// by the constant-product rule.
pub fn calculate_swap_out(reserve_in: i128, reserve_out: i128, amount_in: i128, fee_bps: u32) -> (out:
    i128)
    requires
        swap_inputs_valid(reserve_in as int, reserve_out as int, amount_in as int, fee_bps as int),
        swap_fits_i128(reserve_in as int, reserve_out as int, amount_in as int, fee_bps as int),
    ensures
        out == swap_output(reserve_in as int, reserve_out as int, amount_in as int, fee_bps as int),
        0 <= out < reserve_out,
        (reserve_in + net_input(amount_in as int, fee_bps as int)) * (reserve_out - out) >= reserve_in
            * reserve_out,
        ({
            let fee = amount_in * fee_bps / 10000;
            let net = amount_in - fee;
            &&& fee * 10000 <= amount_in * fee_bps < (fee + 1) * 10000
            &&& out * (reserve_in + net) <= net * reserve_out < (out + 1) * (reserve_in + net)
        }),
{
    proof {
        lemma_swap_output_is_floor(reserve_in as int, reserve_out as int, amount_in as int, fee_bps as int);
        lemma_net_input_bounds(amount_in as int, fee_bps as int);
        lemma_swap_keeps_product(reserve_in as int, reserve_out as int, amount_in as int, fee_bps as int);
    }
    let fee_product = amount_in.checked_mul(fee_bps as i128).expect("overflow in fee calculation");
    assert(fee_product >= 0) by (nonlinear_arith)
        requires
            fee_product == amount_in * fee_bps,
            amount_in > 0,
            fee_bps >= 0,
    ;
    let fee_amount = fee_product.checked_div(MAX_BPS).expect("division by zero in fee calculation");
    let amount_in_after_fee = amount_in.checked_sub(fee_amount).expect("fee exceeds amount in");
    let numerator = amount_in_after_fee.checked_mul(reserve_out).expect("overflow in numerator");
    let denominator = reserve_in.checked_add(amount_in_after_fee).expect("overflow in denominator");
    assert(numerator >= 0) by (nonlinear_arith)
        requires
            numerator == amount_in_after_fee * reserve_out,
            amount_in_after_fee > 0,
            reserve_out > 0,
    ;
    numerator.checked_div(denominator).expect("division by zero in swap calculation")
}

} // verus!
