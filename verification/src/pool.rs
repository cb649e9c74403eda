//! The pool's state and the rules by which deposits, withdrawals and swaps
//! change it.

use crate::lp::{
    calculate_initial_lp, calculate_lp_mint, calculate_withdraw, is_isqrt, isqrt,
    lemma_isqrt_equals, lemma_isqrt_exists, lemma_lp_mint_unique, lemma_mul_le_right,
    lemma_withdraw_share_unique, lemma_quotient_bounds, lemma_share_rounds_down,
    lp_mint_amount, withdraw_share,
};
use crate::swap::{
    calculate_swap_out, lemma_net_input_bounds, lemma_swap_keeps_product, lemma_swap_output_unique,
    net_input, swap_fits_i128, swap_output, MAX_BPS,
};
use vstd::arithmetic::mul::lemma_mul_is_commutative;
use vstd::prelude::*;

verus! {

/// The state of a two-asset pool: the two tokens it trades (`A` is whatever
/// identifies a token where the pool lives), the reserve held of each, the
/// total supply of liquidity-provider shares, and the swap fee in basis points.
#[derive(Clone, Debug, PartialEq, Eq)]
pub struct LiquidityPool<A> {
    pub token_a: A,
    pub token_b: A,
    pub reserve_a: i128,
    pub reserve_b: i128,
    pub lp_token_supply: i128,
    pub fee_bps: u32,
}

impl<A> LiquidityPool<A> {
    /// The states that the pool's own operations can reach: reserves and
    /// supply are never negative, a pool without shares holds nothing, a pool
    /// with shares holds some of each token, and the fee is below one whole.
    pub open spec fn is_valid(self) -> bool {
        &&& self.fee_bps < 10000
        &&& self.lp_token_supply >= 0
        &&& self.lp_token_supply == 0 ==> self.reserve_a == 0 && self.reserve_b == 0
        &&& self.lp_token_supply > 0 ==> self.reserve_a > 0 && self.reserve_b > 0
    }

    /// The same pool with the reserves and share supply replaced.
    pub open spec fn with_amounts(self, reserve_a: int, reserve_b: int, lp_token_supply: int) -> Self {
        LiquidityPool {
            token_a: self.token_a,
            token_b: self.token_b,
            reserve_a: reserve_a as i128,
            reserve_b: reserve_b as i128,
            lp_token_supply: lp_token_supply as i128,
            fee_bps: self.fee_bps,
        }
    }
}

/// The swap fee of a new pool, in basis points.
pub const FEE_BPS: u32 = 30;

/// The name of the pool's share token.
pub const LP_TOKEN_NAME: &'static str = "LP-AMM";

/// Why the pool refuses a request. Each refusal leaves the pool as it was.
#[derive(Clone, Copy, Debug, PartialEq, Eq, Structural)]
pub enum AmmError {
    /// The pool has been initialized before.
    AlreadyInitialized,
    /// A deposit of a non-positive amount.
    AmountsMustBePositive,
    /// A withdrawal of a non-positive number of shares.
    LpAmountMustBePositive,
    /// A withdrawal of more shares than exist.
    InsufficientLpSupply,
    /// A withdrawal of more shares than the depositor holds.
    InsufficientLpBalance,
    /// A swap of a non-positive amount.
    AmountInMustBePositive,
    /// A swap against an empty reserve.
    InsufficientLiquidity,
    /// A pool whose fee is not below one whole.
    FeeExceedsMaximum,
    /// A deposit into a pool whose share supply is negative.
    PoolHasNoLiquidity,
    /// A deposit into a pool with shares but without reserves.
    PoolReservesMustBePositive,
    /// A withdrawal that would pay out nothing of a token.
    WithdrawAmountsMustBePositive,
    /// A deposit that would mint fewer shares than the depositor accepts.
    SlippageLpOutTooLow,
    /// A withdrawal that would pay out less than the depositor accepts.
    SlippageWithdrawTooLow,
    /// A swap that would pay out less than the trader accepts.
    SlippageOutTooLow,
    /// A result that does not fit in an `i128`.
    Overflow,
}

/// The pool's operations: each takes the pool's state and a request and
/// either applies the request or refuses it with an [`AmmError`].
pub struct AmmPool;

/// Whether an integer fits in an `i128`.
pub open spec fn fits_i128(x: int) -> bool {
    i128::MIN <= x <= i128::MAX
}

/// The pool that `initialize` creates.
pub open spec fn new_pool<A>(token_a: A, token_b: A) -> LiquidityPool<A> {
    LiquidityPool {
        token_a,
        token_b,
        reserve_a: 0,
        reserve_b: 0,
        lp_token_supply: 0,
        fee_bps: FEE_BPS,
    }
}

/// The shares a deposit mints: the geometric mean of the amounts into an
/// empty pool, the smaller proportional share otherwise.
pub open spec fn deposit_lp<A>(pool: LiquidityPool<A>, amount_a: int, amount_b: int) -> int {
    if pool.lp_token_supply == 0 {
        isqrt(amount_a * amount_b)
    } else {
        lp_mint_amount(pool, amount_a, amount_b)
    }
}

/// The refusal of a deposit, checked in this order, or `None` when it goes through.
pub open spec fn deposit_error<A>(
    pool: LiquidityPool<A>,
    amount_a: int,
    amount_b: int,
    min_lp_out: int,
    balance: int,
) -> Option<AmmError> {
    let supply = pool.lp_token_supply as int;
    let lp = deposit_lp(pool, amount_a, amount_b);
    if amount_a <= 0 || amount_b <= 0 {
        Some(AmmError::AmountsMustBePositive)
    } else if supply == 0 && amount_a * amount_b >= i128::MAX {
        Some(AmmError::Overflow)
    } else if supply < 0 {
        Some(AmmError::PoolHasNoLiquidity)
    } else if supply > 0 && (pool.reserve_a <= 0 || pool.reserve_b <= 0) {
        Some(AmmError::PoolReservesMustBePositive)
    } else if supply > 0 && (amount_a * supply > i128::MAX || amount_b * supply > i128::MAX) {
        Some(AmmError::Overflow)
    } else if lp < min_lp_out {
        Some(AmmError::SlippageLpOutTooLow)
    } else if !fits_i128(pool.reserve_a + amount_a) || !fits_i128(pool.reserve_b + amount_b)
        || !fits_i128(supply + lp) || !fits_i128(balance + lp) {
        Some(AmmError::Overflow)
    } else {
        None
    }
}

/// The refusal of a withdrawal, checked in this order, or `None` when it goes through.
pub open spec fn withdraw_error<A>(
    pool: LiquidityPool<A>,
    lp_amount: int,
    min_a_out: int,
    min_b_out: int,
    balance: int,
) -> Option<AmmError> {
    let supply = pool.lp_token_supply as int;
    if lp_amount <= 0 {
        Some(AmmError::LpAmountMustBePositive)
    } else if lp_amount > supply {
        Some(AmmError::InsufficientLpSupply)
    } else if lp_amount > balance {
        Some(AmmError::InsufficientLpBalance)
    } else if !fits_i128(lp_amount * pool.reserve_a) || !fits_i128(lp_amount * pool.reserve_b) {
        Some(AmmError::Overflow)
    } else if lp_amount * pool.reserve_a < supply || lp_amount * pool.reserve_b < supply {
        Some(AmmError::WithdrawAmountsMustBePositive)
    } else if withdraw_share(lp_amount, pool.reserve_a as int, supply) < min_a_out
        || withdraw_share(lp_amount, pool.reserve_b as int, supply) < min_b_out {
        Some(AmmError::SlippageWithdrawTooLow)
    } else {
        None
    }
}

/// The refusal of a swap of `amount_in` into the reserve `reserve_in` against
/// `reserve_out`, checked in this order, or `None` when it goes through.
pub open spec fn swap_error(
    reserve_in: int,
    reserve_out: int,
    fee_bps: int,
    amount_in: int,
    min_out: int,
) -> Option<AmmError> {
    if amount_in <= 0 {
        Some(AmmError::AmountInMustBePositive)
    } else if reserve_in <= 0 || reserve_out <= 0 {
        Some(AmmError::InsufficientLiquidity)
    } else if fee_bps >= 10000 {
        Some(AmmError::FeeExceedsMaximum)
    } else if !swap_fits_i128(reserve_in, reserve_out, amount_in, fee_bps) {
        Some(AmmError::Overflow)
    } else if swap_output(reserve_in, reserve_out, amount_in, fee_bps) < min_out {
        Some(AmmError::SlippageOutTooLow)
    } else if reserve_in + amount_in > i128::MAX {
        Some(AmmError::Overflow)
    } else {
        None
    }
}

/// One swap on a pair of reserves: the amount paid out, and the two reserves after it.
fn swap_reserves(reserve_in: i128, reserve_out: i128, fee_bps: u32, amount_in: i128, min_out: i128)
    -> (result: Result<(i128, i128, i128), AmmError>)
    ensures
        match result {
            Ok((out, new_in, new_out)) => {
                &&& swap_error(reserve_in as int, reserve_out as int, fee_bps as int, amount_in as int, min_out as int) is None
                &&& out == swap_output(reserve_in as int, reserve_out as int, amount_in as int, fee_bps as int)
                &&& new_in == reserve_in + amount_in
                &&& new_out == reserve_out - out
                &&& 0 <= out < reserve_out
                &&& new_in * new_out >= reserve_in * reserve_out
            },
            Err(e) => swap_error(reserve_in as int, reserve_out as int, fee_bps as int, amount_in as int, min_out as int) == Some(e),
        },
{
    if amount_in <= 0 {
        return Err(AmmError::AmountInMustBePositive);
    }
    if reserve_in <= 0 || reserve_out <= 0 {
        return Err(AmmError::InsufficientLiquidity);
    }
    if (fee_bps as i128) >= MAX_BPS {
        return Err(AmmError::FeeExceedsMaximum);
    }
    proof {
        lemma_net_input_bounds(amount_in as int, fee_bps as int);
        lemma_swap_keeps_product(reserve_in as int, reserve_out as int, amount_in as int, fee_bps as int);
    }
    let fee_product = match amount_in.checked_mul(fee_bps as i128) {
        Some(p) => p,
        None => return Err(AmmError::Overflow),
    };
    assert(fee_product >= 0) by (nonlinear_arith)
        requires
            fee_product == amount_in * fee_bps,
            amount_in > 0,
            fee_bps >= 0,
    ;
    let fee_amount = fee_product / MAX_BPS;
    let amount_in_after_fee = amount_in - fee_amount;
    if amount_in_after_fee.checked_mul(reserve_out).is_none() {
        return Err(AmmError::Overflow);
    }
    if reserve_in.checked_add(amount_in_after_fee).is_none() {
        return Err(AmmError::Overflow);
    }
    let amount_out = calculate_swap_out(reserve_in, reserve_out, amount_in, fee_bps);
    if amount_out < min_out {
        return Err(AmmError::SlippageOutTooLow);
    }
    if amount_out >= reserve_out {
        return Err(AmmError::InsufficientLiquidity);
    }
    let new_in = match reserve_in.checked_add(amount_in) {
        Some(v) => v,
        None => return Err(AmmError::Overflow),
    };
    Ok((amount_out, new_in, reserve_out - amount_out))
}

/// Burning the shares that a deposit minted, right after it, never pays out
/// more of either token than the deposit put in.
pub proof fn lemma_deposit_then_withdraw_returns_at_most_deposit<A>(
    pool: LiquidityPool<A>,
    amount_a: int,
    amount_b: int,
    min_lp_out: int,
    balance: int,
)
    requires
        pool.is_valid(),
        deposit_error(pool, amount_a, amount_b, min_lp_out, balance) is None,
    ensures
        ({
            let lp = deposit_lp(pool, amount_a, amount_b);
            let supply = pool.lp_token_supply + lp;
            &&& supply > 0
            &&& withdraw_share(lp, pool.reserve_a + amount_a, supply) <= amount_a
            &&& withdraw_share(lp, pool.reserve_b + amount_b, supply) <= amount_b
        }),
{
    let lp = deposit_lp(pool, amount_a, amount_b);
    let s = pool.lp_token_supply as int;
    if s == 0 {
        let product = amount_a * amount_b;
        assert(product >= 1) by (nonlinear_arith)
            requires
                product == amount_a * amount_b,
                amount_a > 0,
                amount_b > 0,
        ;
        lemma_isqrt_exists(product as nat);
        assert(lp >= 1) by (nonlinear_arith)
            requires
                is_isqrt(product, lp),
                product >= 1,
        ;
        lemma_withdraw_bounded_by_deposit(lp, 0, amount_a, 0);
        lemma_withdraw_bounded_by_deposit(lp, 0, amount_b, 0);
    } else {
        lemma_share_rounds_down(amount_a, s, pool.reserve_a as int);
        lemma_share_rounds_down(amount_b, s, pool.reserve_b as int);
        let share_a = amount_a * s / pool.reserve_a as int;
        let share_b = amount_b * s / pool.reserve_b as int;
        assert(lp <= share_a && lp <= share_b && lp >= 0);
        lemma_mul_le_right(lp, share_a, pool.reserve_a as int);
        lemma_mul_le_right(lp, share_b, pool.reserve_b as int);
        lemma_withdraw_bounded_by_deposit(lp, pool.reserve_a as int, amount_a, s);
        lemma_withdraw_bounded_by_deposit(lp, pool.reserve_b as int, amount_b, s);
    }
}

/// If the minted `lp` shares are worth at most the deposit at the old ratio
/// (`lp * reserve <= amount * supply`), burning them at the new ratio pays out
/// at most `amount`.
proof fn lemma_withdraw_bounded_by_deposit(lp: int, reserve: int, amount: int, supply: int)
    requires
        lp >= 0,
        reserve >= 0,
        amount > 0,
        supply >= 0,
        supply + lp > 0,
        lp * reserve <= amount * supply,
    ensures
        withdraw_share(lp, reserve + amount, supply + lp) <= amount,
{
    let x = lp * (reserve + amount);
    let d = supply + lp;
    assert(0 <= x <= d * amount) by (nonlinear_arith)
        requires
            x == lp * (reserve + amount),
            d == supply + lp,
            lp >= 0,
            reserve >= 0,
            amount > 0,
            lp * reserve <= amount * supply,
    ;
    lemma_quotient_bounds(x, d);
    assert(x / d <= amount) by (nonlinear_arith)
        requires
            d * (x / d) <= x,
            x <= d * amount,
            d > 0,
    ;
}

/// Why a deposit is refused: each refusal names a condition of the request
/// or the pool, and a deposit is refused for non-positive amounts exactly
/// when one of them is not positive.
pub proof fn lemma_deposit_refusal_reasons<A>(
    pool: LiquidityPool<A>,
    amount_a: int,
    amount_b: int,
    min_lp_out: int,
    balance: int,
)
    ensures
        ({
            let err = deposit_error(pool, amount_a, amount_b, min_lp_out, balance);
            let supply = pool.lp_token_supply as int;
            let ra = pool.reserve_a as int;
            let rb = pool.reserve_b as int;
            let lp = deposit_lp(pool, amount_a, amount_b);
            &&& err == Some(AmmError::AmountsMustBePositive) <==> (amount_a <= 0 || amount_b <= 0)
            &&& err == Some(AmmError::PoolHasNoLiquidity) ==> supply < 0
            &&& err == Some(AmmError::PoolReservesMustBePositive) ==> supply > 0 && (ra <= 0 || rb <= 0)
            &&& err == Some(AmmError::SlippageLpOutTooLow) ==> amount_a > 0 && amount_b > 0 && lp
                < min_lp_out
            &&& err == Some(AmmError::Overflow) ==> (supply == 0 && amount_a * amount_b >= i128::MAX)
                || (supply > 0 && (amount_a * supply > i128::MAX || amount_b * supply > i128::MAX))
                || !(i128::MIN <= ra + amount_a <= i128::MAX) || !(i128::MIN <= rb + amount_b
                <= i128::MAX) || !(i128::MIN <= supply + lp <= i128::MAX) || !(i128::MIN <= balance
                + lp <= i128::MAX)
            &&& err matches Some(e) ==> e == AmmError::AmountsMustBePositive || e
                == AmmError::PoolHasNoLiquidity || e == AmmError::PoolReservesMustBePositive || e
                == AmmError::SlippageLpOutTooLow || e == AmmError::Overflow
        }),
{
}

/// A deposit of positive amounts, into a pool whose supply is not negative
/// and which holds both tokens if it has shares, whose sums and products fit
/// in an `i128`, mints `lp` shares: the integer square root of
/// `amount_a * amount_b` into an empty pool, otherwise the largest number of
/// shares worth no more than either amount at the pool's ratio. It is refused
/// for slippage exactly when `lp < min_lp_out`, and otherwise goes through.
pub proof fn lemma_deposit_accepts<A>(
    pool: LiquidityPool<A>,
    amount_a: int,
    amount_b: int,
    min_lp_out: int,
    balance: int,
    lp: int,
)
    requires
        amount_a > 0,
        amount_b > 0,
        pool.lp_token_supply >= 0,
        pool.lp_token_supply > 0 ==> pool.reserve_a > 0 && pool.reserve_b > 0,
        pool.lp_token_supply == 0 ==> 0 <= lp && lp * lp <= amount_a * amount_b < (lp + 1) * (lp + 1),
        pool.lp_token_supply > 0 ==> {
            &&& lp * pool.reserve_a <= amount_a * pool.lp_token_supply
            &&& lp * pool.reserve_b <= amount_b * pool.lp_token_supply
            &&& (lp + 1) * pool.reserve_a > amount_a * pool.lp_token_supply || (lp + 1)
                * pool.reserve_b > amount_b * pool.lp_token_supply
        },
        pool.lp_token_supply == 0 ==> amount_a * amount_b < i128::MAX,
        pool.lp_token_supply > 0 ==> amount_a * pool.lp_token_supply <= i128::MAX && amount_b
            * pool.lp_token_supply <= i128::MAX,
        i128::MIN <= pool.reserve_a + amount_a <= i128::MAX,
        i128::MIN <= pool.reserve_b + amount_b <= i128::MAX,
        i128::MIN <= pool.lp_token_supply + lp <= i128::MAX,
        i128::MIN <= balance + lp <= i128::MAX,
    ensures
        deposit_lp(pool, amount_a, amount_b) == lp,
        deposit_error(pool, amount_a, amount_b, min_lp_out, balance) == Some(
            AmmError::SlippageLpOutTooLow,
        ) <==> lp < min_lp_out,
        lp >= min_lp_out ==> deposit_error(pool, amount_a, amount_b, min_lp_out, balance) is None,
{
    if pool.lp_token_supply == 0 {
        lemma_isqrt_equals(amount_a * amount_b, lp);
    } else {
        lemma_lp_mint_unique(pool, amount_a, amount_b, lp);
    }
}

/// Why a withdrawal is refused: each refusal names a condition of the request
/// or the pool; in particular it is refused for the depositor's balance only
/// when more shares are burned than the balance holds.
pub proof fn lemma_withdraw_refusal_reasons<A>(
    pool: LiquidityPool<A>,
    lp_amount: int,
    min_a_out: int,
    min_b_out: int,
    balance: int,
)
    ensures
        ({
            let err = withdraw_error(pool, lp_amount, min_a_out, min_b_out, balance);
            let supply = pool.lp_token_supply as int;
            let ra = pool.reserve_a as int;
            let rb = pool.reserve_b as int;
            &&& err == Some(AmmError::LpAmountMustBePositive) <==> lp_amount <= 0
            &&& err == Some(AmmError::InsufficientLpSupply) ==> 0 < lp_amount && lp_amount > supply
            &&& err == Some(AmmError::InsufficientLpBalance) ==> 0 < lp_amount <= supply && lp_amount
                > balance
            &&& err == Some(AmmError::Overflow) ==> !(i128::MIN <= lp_amount * ra <= i128::MAX) || !(
            i128::MIN <= lp_amount * rb <= i128::MAX)
            &&& err == Some(AmmError::WithdrawAmountsMustBePositive) ==> lp_amount * ra < supply
                || lp_amount * rb < supply
            &&& err == Some(AmmError::SlippageWithdrawTooLow) ==> withdraw_share(lp_amount, ra, supply)
                < min_a_out || withdraw_share(lp_amount, rb, supply) < min_b_out
            &&& err matches Some(e) ==> e == AmmError::LpAmountMustBePositive || e
                == AmmError::InsufficientLpSupply || e == AmmError::InsufficientLpBalance || e
                == AmmError::Overflow || e == AmmError::WithdrawAmountsMustBePositive || e
                == AmmError::SlippageWithdrawTooLow
        }),
{
}

/// A withdrawal of `0 < lp_amount <= balance` shares, no more than the
/// supply, whose products fit in an `i128` and pay out a positive amount of
/// each token, pays out `amount_a` and `amount_b`: the exact shares of the
/// reserves rounded down. It is refused for slippage exactly when a payout
/// is below its minimum, and otherwise goes through.
pub proof fn lemma_withdraw_accepts<A>(
    pool: LiquidityPool<A>,
    lp_amount: int,
    min_a_out: int,
    min_b_out: int,
    balance: int,
    amount_a: int,
    amount_b: int,
)
    requires
        0 < lp_amount <= balance,
        lp_amount <= pool.lp_token_supply,
        pool.lp_token_supply <= lp_amount * pool.reserve_a <= i128::MAX,
        pool.lp_token_supply <= lp_amount * pool.reserve_b <= i128::MAX,
        amount_a * pool.lp_token_supply <= lp_amount * pool.reserve_a < (amount_a + 1)
            * pool.lp_token_supply,
        amount_b * pool.lp_token_supply <= lp_amount * pool.reserve_b < (amount_b + 1)
            * pool.lp_token_supply,
    ensures
        withdraw_share(lp_amount, pool.reserve_a as int, pool.lp_token_supply as int) == amount_a,
        withdraw_share(lp_amount, pool.reserve_b as int, pool.lp_token_supply as int) == amount_b,
        withdraw_error(pool, lp_amount, min_a_out, min_b_out, balance) == Some(
            AmmError::SlippageWithdrawTooLow,
        ) <==> (amount_a < min_a_out || amount_b < min_b_out),
        amount_a >= min_a_out && amount_b >= min_b_out ==> withdraw_error(
            pool,
            lp_amount,
            min_a_out,
            min_b_out,
            balance,
        ) is None,
{
    lemma_withdraw_share_unique(lp_amount, pool.reserve_a as int, pool.lp_token_supply as int, amount_a);
    lemma_withdraw_share_unique(lp_amount, pool.reserve_b as int, pool.lp_token_supply as int, amount_b);
}

/// Why a swap is refused: each refusal names a condition of the request or
/// the reserves.
pub proof fn lemma_swap_refusal_reasons(
    reserve_in: int,
    reserve_out: int,
    fee_bps: int,
    amount_in: int,
    min_out: int,
)
    ensures
        ({
            let err = swap_error(reserve_in, reserve_out, fee_bps, amount_in, min_out);
            let net = net_input(amount_in, fee_bps);
            &&& err == Some(AmmError::AmountInMustBePositive) <==> amount_in <= 0
            &&& err == Some(AmmError::InsufficientLiquidity) ==> amount_in > 0 && (reserve_in <= 0
                || reserve_out <= 0)
            &&& err == Some(AmmError::FeeExceedsMaximum) ==> fee_bps >= 10000
            &&& err == Some(AmmError::Overflow) ==> amount_in * fee_bps > i128::MAX || net
                * reserve_out > i128::MAX || reserve_in + net > i128::MAX || reserve_in + amount_in
                > i128::MAX
            &&& err == Some(AmmError::SlippageOutTooLow) ==> swap_output(
                reserve_in,
                reserve_out,
                amount_in,
                fee_bps,
            ) < min_out
            &&& err matches Some(e) ==> e == AmmError::AmountInMustBePositive || e
                == AmmError::InsufficientLiquidity || e == AmmError::FeeExceedsMaximum || e
                == AmmError::Overflow || e == AmmError::SlippageOutTooLow
        }),
{
}

/// A swap of a positive `amount_in` against positive reserves, with a fee
/// below one whole, pays out `out`: with `fee` the fee rounded down and
/// `net = amount_in - fee`, the largest amount with
/// `out * (reserve_in + net) <= net * reserve_out`. When the arithmetic fits
/// in an `i128`, it is refused for slippage exactly when `out < min_out`, and
/// otherwise goes through unless the new input reserve overflows.
pub proof fn lemma_swap_accepts(
    reserve_in: int,
    reserve_out: int,
    fee_bps: int,
    amount_in: int,
    min_out: int,
    fee: int,
    out: int,
)
    requires
        amount_in > 0,
        reserve_in > 0,
        reserve_out > 0,
        0 <= fee_bps < 10000,
        fee * 10000 <= amount_in * fee_bps < (fee + 1) * 10000,
        out * (reserve_in + amount_in - fee) <= (amount_in - fee) * reserve_out < (out + 1) * (
        reserve_in + amount_in - fee),
        amount_in * fee_bps <= i128::MAX,
        (amount_in - fee) * reserve_out <= i128::MAX,
        reserve_in + amount_in - fee <= i128::MAX,
    ensures
        swap_output(reserve_in, reserve_out, amount_in, fee_bps) == out,
        swap_error(reserve_in, reserve_out, fee_bps, amount_in, min_out) == Some(
            AmmError::SlippageOutTooLow,
        ) <==> out < min_out,
        out >= min_out && reserve_in + amount_in <= i128::MAX ==> swap_error(
            reserve_in,
            reserve_out,
            fee_bps,
            amount_in,
            min_out,
        ) is None,
{
    lemma_swap_output_unique(reserve_in, reserve_out, amount_in, fee_bps, fee, out);
}

impl AmmPool {
    /// Creates the pool for two tokens, empty and with the fee [`FEE_BPS`];
    /// refuses if a pool exists already.
    pub fn initialize<A>(already_initialized: bool, token_a: A, token_b: A) -> (result: Result<
        LiquidityPool<A>,
        AmmError,
    >)
        ensures
            match result {
                Ok(pool) => {
                    &&& !already_initialized
                    &&& pool == new_pool(token_a, token_b)
                    &&& pool.is_valid()
                    &&& pool.token_a == token_a && pool.token_b == token_b
                    &&& pool.reserve_a == 0 && pool.reserve_b == 0 && pool.lp_token_supply == 0
                    &&& pool.fee_bps == 30
                },
                Err(e) => already_initialized && e == AmmError::AlreadyInitialized,
            },
    {
        if already_initialized {
            return Err(AmmError::AlreadyInitialized);
        }
        Ok(
            LiquidityPool {
                token_a,
                token_b,
                reserve_a: 0,
                reserve_b: 0,
                lp_token_supply: 0,
                fee_bps: FEE_BPS,
            },
        )
    }

    /// Deposits `amount_a` and `amount_b` for shares, credited to the
    /// depositor's share `balance`; refuses when fewer than `min_lp_out`
    /// shares would be minted.
    pub fn deposit<A>(
        pool: &mut LiquidityPool<A>,
        balance: &mut i128,
        amount_a: i128,
        amount_b: i128,
        min_lp_out: i128,
    ) -> (result: Result<i128, AmmError>)
        ensures
            match result {
                Ok(lp) => {
                    &&& deposit_error(*old(pool), amount_a as int, amount_b as int, min_lp_out as int, *old(balance) as int) is None
                    &&& lp == deposit_lp(*old(pool), amount_a as int, amount_b as int)
                    &&& *final(pool) == old(pool).with_amounts(
                        old(pool).reserve_a + amount_a,
                        old(pool).reserve_b + amount_b,
                        old(pool).lp_token_supply + lp,
                    )
                    &&& *final(balance) == *old(balance) + lp
                    &&& lp >= min_lp_out
                    &&& final(pool).reserve_a == old(pool).reserve_a + amount_a
                    &&& final(pool).reserve_b == old(pool).reserve_b + amount_b
                    &&& final(pool).lp_token_supply == old(pool).lp_token_supply + lp
                    &&& final(pool).token_a == old(pool).token_a
                    &&& final(pool).token_b == old(pool).token_b
                    &&& final(pool).fee_bps == old(pool).fee_bps
                },
                Err(e) => {
                    &&& deposit_error(*old(pool), amount_a as int, amount_b as int, min_lp_out as int, *old(balance) as int) == Some(e)
                    &&& *final(pool) == *old(pool)
                    &&& *final(balance) == *old(balance)
                },
            },
            old(pool).is_valid() ==> final(pool).is_valid(),
    {
        if amount_a <= 0 || amount_b <= 0 {
            return Err(AmmError::AmountsMustBePositive);
        }
        let supply = pool.lp_token_supply;
        let lp_amount = if supply == 0 {
            match amount_a.checked_mul(amount_b) {
                Some(product) => {
                    if product == i128::MAX {
                        return Err(AmmError::Overflow);
                    }
                },
                None => return Err(AmmError::Overflow),
            }
            calculate_initial_lp(amount_a, amount_b)
        } else {
            if supply < 0 {
                return Err(AmmError::PoolHasNoLiquidity);
            }
            if pool.reserve_a <= 0 || pool.reserve_b <= 0 {
                return Err(AmmError::PoolReservesMustBePositive);
            }
            if amount_a.checked_mul(supply).is_none() || amount_b.checked_mul(supply).is_none() {
                return Err(AmmError::Overflow);
            }
            calculate_lp_mint(pool, amount_a, amount_b)
        };
        if lp_amount < min_lp_out {
            return Err(AmmError::SlippageLpOutTooLow);
        }
        let new_reserve_a = match pool.reserve_a.checked_add(amount_a) {
            Some(v) => v,
            None => return Err(AmmError::Overflow),
        };
        let new_reserve_b = match pool.reserve_b.checked_add(amount_b) {
            Some(v) => v,
            None => return Err(AmmError::Overflow),
        };
        let new_supply = match supply.checked_add(lp_amount) {
            Some(v) => v,
            None => return Err(AmmError::Overflow),
        };
        let new_balance = match balance.checked_add(lp_amount) {
            Some(v) => v,
            None => return Err(AmmError::Overflow),
        };
        pool.reserve_a = new_reserve_a;
        pool.reserve_b = new_reserve_b;
        pool.lp_token_supply = new_supply;
        *balance = new_balance;
        Ok(lp_amount)
    }

    /// Burns `lp_amount` of the depositor's shares for the proportional part
    /// of both reserves; refuses when either payout would fall below its minimum.
    pub fn withdraw<A>(
        pool: &mut LiquidityPool<A>,
        balance: &mut i128,
        lp_amount: i128,
        min_a_out: i128,
        min_b_out: i128,
    ) -> (result: Result<(i128, i128), AmmError>)
        ensures
            match result {
                Ok((amount_a, amount_b)) => {
                    &&& withdraw_error(*old(pool), lp_amount as int, min_a_out as int, min_b_out as int, *old(balance) as int) is None
                    &&& amount_a == withdraw_share(lp_amount as int, old(pool).reserve_a as int, old(pool).lp_token_supply as int)
                    &&& amount_b == withdraw_share(lp_amount as int, old(pool).reserve_b as int, old(pool).lp_token_supply as int)
                    &&& *final(pool) == old(pool).with_amounts(
                        old(pool).reserve_a - amount_a,
                        old(pool).reserve_b - amount_b,
                        old(pool).lp_token_supply - lp_amount,
                    )
                    &&& *final(balance) == *old(balance) - lp_amount
                    &&& 0 < amount_a <= old(pool).reserve_a
                    &&& 0 < amount_b <= old(pool).reserve_b
                    &&& lp_amount == old(pool).lp_token_supply ==> amount_a == old(pool).reserve_a
                        && amount_b == old(pool).reserve_b
                    &&& 0 < lp_amount <= *old(balance)
                    &&& amount_a >= min_a_out && amount_b >= min_b_out
                    &&& final(pool).reserve_a == old(pool).reserve_a - amount_a
                    &&& final(pool).reserve_b == old(pool).reserve_b - amount_b
                    &&& final(pool).lp_token_supply == old(pool).lp_token_supply - lp_amount
                    &&& final(pool).token_a == old(pool).token_a
                    &&& final(pool).token_b == old(pool).token_b
                    &&& final(pool).fee_bps == old(pool).fee_bps
                },
                Err(e) => {
                    &&& withdraw_error(*old(pool), lp_amount as int, min_a_out as int, min_b_out as int, *old(balance) as int) == Some(e)
                    &&& *final(pool) == *old(pool)
                    &&& *final(balance) == *old(balance)
                },
            },
            old(pool).is_valid() ==> final(pool).is_valid(),
    {
        if lp_amount <= 0 {
            return Err(AmmError::LpAmountMustBePositive);
        }
        if lp_amount > pool.lp_token_supply {
            return Err(AmmError::InsufficientLpSupply);
        }
        if lp_amount > *balance {
            return Err(AmmError::InsufficientLpBalance);
        }
        let scaled_a = match lp_amount.checked_mul(pool.reserve_a) {
            Some(v) => v,
            None => return Err(AmmError::Overflow),
        };
        let scaled_b = match lp_amount.checked_mul(pool.reserve_b) {
            Some(v) => v,
            None => return Err(AmmError::Overflow),
        };
        if scaled_a < pool.lp_token_supply || scaled_b < pool.lp_token_supply {
            return Err(AmmError::WithdrawAmountsMustBePositive);
        }
        let (amount_a, amount_b) = calculate_withdraw(pool, lp_amount);
        if amount_a < min_a_out || amount_b < min_b_out {
            return Err(AmmError::SlippageWithdrawTooLow);
        }
        pool.reserve_a = pool.reserve_a - amount_a;
        pool.reserve_b = pool.reserve_b - amount_b;
        pool.lp_token_supply = pool.lp_token_supply - lp_amount;
        *balance = *balance - lp_amount;
        Ok((amount_a, amount_b))
    }

    /// Swaps `amount_in` of token A for token B at the constant-product
    /// price after the fee; refuses when less than `min_out` would be paid out.
    pub fn swap_exact_a_for_b<A>(pool: &mut LiquidityPool<A>, amount_in: i128, min_out: i128) -> (result:
        Result<i128, AmmError>)
        ensures
            match result {
                Ok(out) => {
                    &&& swap_error(old(pool).reserve_a as int, old(pool).reserve_b as int, old(pool).fee_bps as int, amount_in as int, min_out as int) is None
                    &&& out == swap_output(old(pool).reserve_a as int, old(pool).reserve_b as int, amount_in as int, old(pool).fee_bps as int)
                    &&& *final(pool) == old(pool).with_amounts(
                        old(pool).reserve_a + amount_in,
                        old(pool).reserve_b - out,
                        old(pool).lp_token_supply as int,
                    )
                    &&& 0 <= out < old(pool).reserve_b
                    &&& out >= min_out
                    &&& final(pool).reserve_a == old(pool).reserve_a + amount_in
                    &&& final(pool).reserve_b == old(pool).reserve_b - out
                    &&& final(pool).lp_token_supply == old(pool).lp_token_supply
                    &&& final(pool).token_a == old(pool).token_a
                    &&& final(pool).token_b == old(pool).token_b
                    &&& final(pool).fee_bps == old(pool).fee_bps
                    &&& final(pool).reserve_a * final(pool).reserve_b >= old(pool).reserve_a * old(pool).reserve_b
                },
                Err(e) => {
                    &&& swap_error(old(pool).reserve_a as int, old(pool).reserve_b as int, old(pool).fee_bps as int, amount_in as int, min_out as int) == Some(e)
                    &&& *final(pool) == *old(pool)
                },
            },
            old(pool).is_valid() ==> final(pool).is_valid(),
    {
        match swap_reserves(pool.reserve_a, pool.reserve_b, pool.fee_bps, amount_in, min_out) {
            Ok((out, new_a, new_b)) => {
                pool.reserve_a = new_a;
                pool.reserve_b = new_b;
                Ok(out)
            },
            Err(e) => Err(e),
        }
    }

    /// Swaps `amount_in` of token B for token A at the constant-product
    /// price after the fee; refuses when less than `min_out` would be paid out.
    pub fn swap_exact_b_for_a<A>(pool: &mut LiquidityPool<A>, amount_in: i128, min_out: i128) -> (result:
        Result<i128, AmmError>)
        ensures
            match result {
                Ok(out) => {
                    &&& swap_error(old(pool).reserve_b as int, old(pool).reserve_a as int, old(pool).fee_bps as int, amount_in as int, min_out as int) is None
                    &&& out == swap_output(old(pool).reserve_b as int, old(pool).reserve_a as int, amount_in as int, old(pool).fee_bps as int)
                    &&& *final(pool) == old(pool).with_amounts(
                        old(pool).reserve_a - out,
                        old(pool).reserve_b + amount_in,
                        old(pool).lp_token_supply as int,
                    )
                    &&& 0 <= out < old(pool).reserve_a
                    &&& out >= min_out
                    &&& final(pool).reserve_a == old(pool).reserve_a - out
                    &&& final(pool).reserve_b == old(pool).reserve_b + amount_in
                    &&& final(pool).lp_token_supply == old(pool).lp_token_supply
                    &&& final(pool).token_a == old(pool).token_a
                    &&& final(pool).token_b == old(pool).token_b
                    &&& final(pool).fee_bps == old(pool).fee_bps
                    &&& final(pool).reserve_a * final(pool).reserve_b >= old(pool).reserve_a * old(pool).reserve_b
                },
                Err(e) => {
                    &&& swap_error(old(pool).reserve_b as int, old(pool).reserve_a as int, old(pool).fee_bps as int, amount_in as int, min_out as int) == Some(e)
                    &&& *final(pool) == *old(pool)
                },
            },
            old(pool).is_valid() ==> final(pool).is_valid(),
    {
        let ghost reserve_a = pool.reserve_a as int;
        let ghost reserve_b = pool.reserve_b as int;
        match swap_reserves(pool.reserve_b, pool.reserve_a, pool.fee_bps, amount_in, min_out) {
            Ok((out, new_b, new_a)) => {
                pool.reserve_a = new_a;
                pool.reserve_b = new_b;
                proof {
                    lemma_mul_is_commutative(new_a as int, new_b as int);
                    lemma_mul_is_commutative(reserve_a, reserve_b);
                }
                Ok(out)
            },
            Err(e) => Err(e),
        }
    }
}

} // verus!
