//! Liquidity-provider share arithmetic: minting, burning and the integer
//! square root used for the first deposit.

use vstd::arithmetic::div_mod::{
    lemma_fundamental_div_mod, lemma_fundamental_div_mod_converse, lemma_mod_bound, lemma_mod_pos_bound,
};
use crate::pool::LiquidityPool;
use vstd::prelude::*;

verus! {

/// `root` is the integer square root of `n`: the largest integer whose
/// square does not exceed `n`.
pub open spec fn is_isqrt(n: int, root: int) -> bool {
    0 <= root && root * root <= n && n < (root + 1) * (root + 1)
}

/// The integer square root of a natural number `n`.
pub open spec fn isqrt(n: int) -> int {
    choose|root: int| is_isqrt(n, root)
}

/// A number has at most one integer square root.
pub proof fn lemma_isqrt_unique(n: int, r1: int, r2: int)
    requires
        is_isqrt(n, r1),
        is_isqrt(n, r2),
    ensures
        r1 == r2,
{
    if r1 < r2 {
        assert(false) by (nonlinear_arith)
            requires
                0 <= r1 < r2,
                r2 * r2 <= n,
                n < (r1 + 1) * (r1 + 1),
        ;
    } else if r2 < r1 {
        assert(false) by (nonlinear_arith)
            requires
                0 <= r2 < r1,
                r1 * r1 <= n,
                n < (r2 + 1) * (r2 + 1),
        ;
    }
}

/// Every natural number has an integer square root, and `isqrt` names it.
pub proof fn lemma_isqrt_exists(n: nat)
    ensures
        is_isqrt(n as int, isqrt(n as int)),
    decreases n,
{
    if n == 0 {
        assert(is_isqrt(0, 0)) by (nonlinear_arith);
    } else {
        let m = (n - 1) as nat;
        lemma_isqrt_exists(m);
        let r = isqrt(m as int);
        if (r + 1) * (r + 1) <= n {
            assert(is_isqrt(n as int, r + 1)) by (nonlinear_arith)
                requires
                    0 <= r,
                    (r + 1) * (r + 1) <= n,
                    m < (r + 1) * (r + 1),
                    m + 1 == n,
            ;
        } else {
            assert(is_isqrt(n as int, r));
        }
    }
}

/// What `isqrt` names is the one integer square root.
pub proof fn lemma_isqrt_equals(n: int, root: int)
    requires
        is_isqrt(n, root),
    ensures
        isqrt(n) == root,
{
    assert(is_isqrt(n, isqrt(n)));
    lemma_isqrt_unique(n, root, isqrt(n));
}

/// Facts about the truncated quotient of a natural number by a positive one.
pub(crate) proof fn lemma_quotient_bounds(n: int, x: int)
    requires
        0 <= n,
        1 <= x,
    ensures
        0 <= n / x,
        x * (n / x) <= n,
        n < x * (n / x + 1),
{
    lemma_fundamental_div_mod(n, x);
    lemma_mod_pos_bound(n, x);
    let q = n / x;
    let r = n % x;
    assert(0 <= q) by (nonlinear_arith)
        requires
            n == x * q + r,
            0 <= r < x,
            0 <= n,
            1 <= x,
    ;
    assert(x * (q + 1) == x * q + x) by (nonlinear_arith);
}

/// The quotient `x / d` is the one integer `q` with `q * d <= x < (q + 1) * d`.
pub proof fn lemma_floor_div_unique(x: int, d: int, q: int)
    requires
        d > 0,
        q * d <= x < (q + 1) * d,
    ensures
        q == x / d,
{
    assert((q + 1) * d == q * d + d) by (nonlinear_arith);
    lemma_fundamental_div_mod_converse(x, d, q, x - q * d);
}

/// The quotient `x / d` satisfies `(x / d) * d <= x < (x / d + 1) * d`.
pub proof fn lemma_floor_div_bounds(x: int, d: int)
    requires
        d > 0,
    ensures
        (x / d) * d <= x < (x / d + 1) * d,
{
    lemma_fundamental_div_mod(x, d);
    lemma_mod_bound(x, d);
    let q = x / d;
    assert(q * d <= x < (q + 1) * d) by (nonlinear_arith)
        requires
            x == d * q + x % d,
            0 <= x % d < d,
    ;
}

/// One step of the Babylonian iteration never falls below the integer square
/// root: the next estimate `y` still satisfies `n < (y + 1)²`.
proof fn lemma_estimate_stays_above_root(n: int, x: int)
    requires
        0 <= n,
        1 <= x,
    ensures
        0 <= (x + n / x) / 2,
        n < ((x + n / x) / 2 + 1) * ((x + n / x) / 2 + 1),
{
    lemma_quotient_bounds(n, x);
    let q = n / x;
    let y = (x + q) / 2;
    let s = x + q + 1;
    assert(s <= 2 * (y + 1));
    assert(4 * (x * (q + 1)) <= s * s) by (nonlinear_arith)
        requires
            s == x + q + 1,
    ;
    assert(s * s <= (2 * (y + 1)) * (2 * (y + 1))) by (nonlinear_arith)
        requires
            0 <= s <= 2 * (y + 1),
    ;
    assert(n < (y + 1) * (y + 1)) by (nonlinear_arith)
        requires
            n < x * (q + 1),
            4 * (x * (q + 1)) <= s * s,
            s * s <= (2 * (y + 1)) * (2 * (y + 1)),
    ;
}

/// The sum `x + n / x` stays within `n + 1` while `1 <= x <= n`, so the
/// iteration never overflows.
proof fn lemma_estimate_sum_bounded(n: int, x: int)
    requires
        1 <= x <= n,
    ensures
        x + n / x <= n + 1,
{
    lemma_quotient_bounds(n, x);
    let q = n / x;
    assert(x + q <= n + 1) by (nonlinear_arith)
        requires
            1 <= x <= n,
            0 <= q,
            x * q <= n,
    {
        assert((x - 1) * (n - x) >= 0);
        assert(x * (x + q) <= x * x + n);
        assert(x * (x + q) <= x * (n + 1));
    }
}

/// When the next estimate is no smaller than `x`, `x` is at most the root.
proof fn lemma_estimate_settled(n: int, x: int)
    requires
        0 <= n,
        1 <= x,
        (x + n / x) / 2 >= x,
    ensures
        x * x <= n,
{
    lemma_quotient_bounds(n, x);
    let q = n / x;
    assert(x <= q);
    assert(x * x <= x * q) by (nonlinear_arith)
        requires
            1 <= x <= q,
    ;
}

/// Integer square root by the Babylonian method: returns the largest `r`
/// with `r * r <= n`.
pub fn sqrt(n: i128) -> (root: i128)
    requires
        0 <= n < i128::MAX,
    ensures
        is_isqrt(n as int, root as int),
        root == isqrt(n as int),
        0 <= root,
        root * root <= n < (root + 1) * (root + 1),
{
    if n == 0 {
        assert(is_isqrt(0, 0)) by (nonlinear_arith);
        proof {
            lemma_isqrt_equals(0, 0);
        }
        return 0;
    }
    let mut x = n;
    assert(n / n == 1) by (nonlinear_arith)
        requires
            n >= 1,
    ;
    assert(n < (n + 1) * (n + 1)) by (nonlinear_arith)
        requires
            n >= 1,
    ;
    let mut y = (x + 1) / 2;
    while y < x
        invariant
            1 <= n < i128::MAX,
            1 <= x <= n,
            n < (x + 1) * (x + 1),
            y == (x + n / x) / 2,
        decreases x,
    {
        proof {
            lemma_estimate_stays_above_root(n as int, x as int);
        }
        assert(y >= 1) by (nonlinear_arith)
            requires
                0 <= y,
                n < (y + 1) * (y + 1),
                1 <= n,
        ;
        x = y;
        proof {
            lemma_estimate_sum_bounded(n as int, x as int);
            lemma_quotient_bounds(n as int, x as int);
        }
        y = (y + n / y) / 2;
    }
    proof {
        lemma_estimate_settled(n as int, x as int);
        lemma_isqrt_equals(n as int, x as int);
    }
    x
}

/// The shares minted by the first deposit into an empty pool: the geometric
/// mean of the two amounts, rounded down.
pub fn calculate_initial_lp(amount_a: i128, amount_b: i128) -> (lp: i128)
    requires
        amount_a > 0,
        amount_b > 0,
        amount_a * amount_b < i128::MAX,
    ensures
        lp == isqrt(amount_a * amount_b),
        is_isqrt(amount_a * amount_b, lp as int),
        lp > 0,
        lp * lp <= amount_a * amount_b < (lp + 1) * (lp + 1),
{
    let product = amount_a.checked_mul(amount_b).expect("overflow in product");
    assert(product >= 1) by (nonlinear_arith)
        requires
            product == amount_a * amount_b,
            amount_a > 0,
            amount_b > 0,
    ;
    let geometric_mean = sqrt(product);
    assert(geometric_mean > 0) by (nonlinear_arith)
        requires
            is_isqrt(product as int, geometric_mean as int),
            product >= 1,
    ;
    geometric_mean
}

/// The shares that `amount` of a token is worth in a pool holding `reserve`
/// of it against `supply` shares, rounded down.
pub open spec fn proportional_share(amount: int, supply: int, reserve: int) -> int {
    amount * supply / reserve
}

/// The shares minted for a deposit into a pool that already has shares: the
/// smaller of the two proportional shares.
pub open spec fn lp_mint_amount<A>(pool: LiquidityPool<A>, amount_a: int, amount_b: int) -> int {
    let share_a = proportional_share(amount_a, pool.lp_token_supply as int, pool.reserve_a as int);
    let share_b = proportional_share(amount_b, pool.lp_token_supply as int, pool.reserve_b as int);
    if share_a < share_b {
        share_a
    } else {
        share_b
    }
}

/// `share = amount * supply / reserve` rounded down is at most the exact share:
/// `share * reserve <= amount * supply`.
pub(crate) proof fn lemma_share_rounds_down(amount: int, supply: int, reserve: int)
    requires
        amount >= 0,
        supply >= 0,
        reserve > 0,
    ensures
        0 <= proportional_share(amount, supply, reserve),
        proportional_share(amount, supply, reserve) * reserve <= amount * supply,
{
    let p = amount * supply;
    assert(p >= 0) by (nonlinear_arith)
        requires
            p == amount * supply,
            amount >= 0,
            supply >= 0,
    ;
    lemma_quotient_bounds(p, reserve);
    assert(reserve * (p / reserve) == (p / reserve) * reserve) by (nonlinear_arith);
}

/// Multiplying by a positive factor keeps `<=`.
pub(crate) proof fn lemma_mul_le_right(x: int, y: int, z: int)
    requires
        x <= y,
        z > 0,
    ensures
        x * z <= y * z,
{
    assert(x * z <= y * z) by (nonlinear_arith)
        requires
            x <= y,
            z > 0,
    ;
}

/// The shares minted for a deposit of `amount_a` and `amount_b` into a pool
/// that already has shares.
pub fn calculate_lp_mint<A>(pool: &LiquidityPool<A>, amount_a: i128, amount_b: i128) -> (lp: i128)
    requires
        pool.lp_token_supply > 0,
        amount_a > 0,
        amount_b > 0,
        pool.reserve_a > 0,
        pool.reserve_b > 0,
        amount_a * pool.lp_token_supply <= i128::MAX,
        amount_b * pool.lp_token_supply <= i128::MAX,
    ensures
        lp == lp_mint_amount(*pool, amount_a as int, amount_b as int),
        lp >= 0,
        lp * pool.reserve_a <= amount_a * pool.lp_token_supply,
        lp * pool.reserve_b <= amount_b * pool.lp_token_supply,
        (lp + 1) * pool.reserve_a > amount_a * pool.lp_token_supply || (lp + 1) * pool.reserve_b
            > amount_b * pool.lp_token_supply,
{
    proof {
        lemma_lp_mint_is_largest_fitting_share(*pool, amount_a as int, amount_b as int);
        lemma_share_rounds_down(amount_a as int, pool.lp_token_supply as int, pool.reserve_a as int);
        lemma_share_rounds_down(amount_b as int, pool.lp_token_supply as int, pool.reserve_b as int);
    }
    let scaled_a = amount_a.checked_mul(pool.lp_token_supply).expect("overflow");
    let scaled_b = amount_b.checked_mul(pool.lp_token_supply).expect("overflow");
    assert(scaled_a >= 0 && scaled_b >= 0) by (nonlinear_arith)
        requires
            scaled_a == amount_a * pool.lp_token_supply,
            scaled_b == amount_b * pool.lp_token_supply,
            amount_a > 0,
            amount_b > 0,
            pool.lp_token_supply > 0,
    ;
    let share_a = scaled_a.checked_div(pool.reserve_a).expect("division by zero");
    let share_b = scaled_b.checked_div(pool.reserve_b).expect("division by zero");
    let lp = if share_a < share_b {
        share_a
    } else {
        share_b
    };
    proof {
        lemma_mul_le_right(lp as int, share_a as int, pool.reserve_a as int);
        lemma_mul_le_right(lp as int, share_b as int, pool.reserve_b as int);
    }
    lp
}

/// The shares minted into a funded pool are the largest number that is worth
/// no more than either deposited amount at the pool's ratio:
/// `lp * reserve_a <= amount_a * supply`, `lp * reserve_b <= amount_b * supply`,
/// and one share more would break one of the two.
pub proof fn lemma_lp_mint_is_largest_fitting_share<A>(pool: LiquidityPool<A>, amount_a: int, amount_b: int)
    requires
        pool.lp_token_supply > 0,
        pool.reserve_a > 0,
        pool.reserve_b > 0,
        amount_a >= 0,
        amount_b >= 0,
    ensures
        ({
            let lp = lp_mint_amount(pool, amount_a, amount_b);
            let supply = pool.lp_token_supply as int;
            &&& lp >= 0
            &&& lp * pool.reserve_a <= amount_a * supply
            &&& lp * pool.reserve_b <= amount_b * supply
            &&& (lp + 1) * pool.reserve_a > amount_a * supply || (lp + 1) * pool.reserve_b > amount_b
                * supply
        }),
{
    let supply = pool.lp_token_supply as int;
    let ra = pool.reserve_a as int;
    let rb = pool.reserve_b as int;
    lemma_floor_div_bounds(amount_a * supply, ra);
    lemma_floor_div_bounds(amount_b * supply, rb);
    lemma_share_rounds_down(amount_a, supply, ra);
    lemma_share_rounds_down(amount_b, supply, rb);
    let share_a = amount_a * supply / ra;
    let share_b = amount_b * supply / rb;
    let lp = lp_mint_amount(pool, amount_a, amount_b);
    lemma_mul_le_right(lp, share_a, ra);
    lemma_mul_le_right(lp, share_b, rb);
}

/// Only one number of shares is the largest that fits both deposited amounts:
/// any `lp` with the three properties of
/// [`lemma_lp_mint_is_largest_fitting_share`] is the minted amount.
pub proof fn lemma_lp_mint_unique<A>(pool: LiquidityPool<A>, amount_a: int, amount_b: int, lp: int)
    requires
        pool.lp_token_supply > 0,
        pool.reserve_a > 0,
        pool.reserve_b > 0,
        amount_a >= 0,
        amount_b >= 0,
        lp * pool.reserve_a <= amount_a * pool.lp_token_supply,
        lp * pool.reserve_b <= amount_b * pool.lp_token_supply,
        (lp + 1) * pool.reserve_a > amount_a * pool.lp_token_supply || (lp + 1) * pool.reserve_b
            > amount_b * pool.lp_token_supply,
    ensures
        lp == lp_mint_amount(pool, amount_a, amount_b),
{
    let supply = pool.lp_token_supply as int;
    let ra = pool.reserve_a as int;
    let rb = pool.reserve_b as int;
    lemma_lp_mint_is_largest_fitting_share(pool, amount_a, amount_b);
    let m = lp_mint_amount(pool, amount_a, amount_b);
    // Two numbers that both fit both bounds and are both maximal coincide.
    lemma_fitting_shares_ordered(lp, m, ra, amount_a * supply, rb, amount_b * supply);
    lemma_fitting_shares_ordered(m, lp, ra, amount_a * supply, rb, amount_b * supply);
}

/// If `x` fits both bounds and `y` is maximal for one of them, then `x <= y`.
proof fn lemma_fitting_shares_ordered(x: int, y: int, ra: int, va: int, rb: int, vb: int)
    requires
        ra > 0,
        rb > 0,
        x * ra <= va,
        x * rb <= vb,
        (y + 1) * ra > va || (y + 1) * rb > vb,
    ensures
        x <= y,
{
    if (y + 1) * ra > va {
        assert(x <= y) by (nonlinear_arith)
            requires
                x * ra <= va,
                (y + 1) * ra > va,
                ra > 0,
        ;
    } else {
        assert(x <= y) by (nonlinear_arith)
            requires
                x * rb <= vb,
                (y + 1) * rb > vb,
                rb > 0,
        ;
    }
}

/// Burning `lp` of `supply` shares pays out of `reserve` the amount `w` with
/// `w * supply <= lp * reserve < (w + 1) * supply`: the exact share, rounded down.
pub proof fn lemma_withdraw_share_is_floor(lp: int, reserve: int, supply: int)
    requires
        supply > 0,
    ensures
        withdraw_share(lp, reserve, supply) * supply <= lp * reserve < (withdraw_share(lp, reserve, supply)
            + 1) * supply,
{
    lemma_floor_div_bounds(lp * reserve, supply);
}

/// Only one amount is the exact share rounded down.
pub proof fn lemma_withdraw_share_unique(lp: int, reserve: int, supply: int, w: int)
    requires
        supply > 0,
        w * supply <= lp * reserve < (w + 1) * supply,
    ensures
        w == withdraw_share(lp, reserve, supply),
{
    lemma_floor_div_unique(lp * reserve, supply, w);
}

/// The amount of a token paid out for burning `lp` of `supply` shares of a
/// pool holding `reserve` of it, rounded down.
pub open spec fn withdraw_share(lp: int, reserve: int, supply: int) -> int {
    lp * reserve / supply
}

/// The amounts of both tokens paid out for burning `lp_amount` shares.
pub fn calculate_withdraw<A>(pool: &LiquidityPool<A>, lp_amount: i128) -> (amounts: (i128, i128))
    requires
        0 < lp_amount <= pool.lp_token_supply,
        pool.lp_token_supply <= lp_amount * pool.reserve_a <= i128::MAX,
        pool.lp_token_supply <= lp_amount * pool.reserve_b <= i128::MAX,
    ensures
        amounts.0 == withdraw_share(lp_amount as int, pool.reserve_a as int, pool.lp_token_supply as int),
        amounts.1 == withdraw_share(lp_amount as int, pool.reserve_b as int, pool.lp_token_supply as int),
        0 < amounts.0 <= pool.reserve_a,
        0 < amounts.1 <= pool.reserve_b,
        amounts.0 * pool.lp_token_supply <= lp_amount * pool.reserve_a < (amounts.0 + 1)
            * pool.lp_token_supply,
        amounts.1 * pool.lp_token_supply <= lp_amount * pool.reserve_b < (amounts.1 + 1)
            * pool.lp_token_supply,
        lp_amount < pool.lp_token_supply ==> amounts.0 < pool.reserve_a && amounts.1 < pool.reserve_b,
        lp_amount == pool.lp_token_supply ==> amounts.0 == pool.reserve_a && amounts.1 == pool.reserve_b,
{
    proof {
        lemma_withdraw_share_is_floor(lp_amount as int, pool.reserve_a as int, pool.lp_token_supply as int);
        lemma_withdraw_share_is_floor(lp_amount as int, pool.reserve_b as int, pool.lp_token_supply as int);
        lemma_withdraw_share_bounds(lp_amount as int, pool.reserve_a as int, pool.lp_token_supply as int);
        lemma_withdraw_share_bounds(lp_amount as int, pool.reserve_b as int, pool.lp_token_supply as int);
    }
    let amount_a = lp_amount.checked_mul(pool.reserve_a).expect("overflow").checked_div(
        pool.lp_token_supply,
    ).expect("division by zero");
    let amount_b = lp_amount.checked_mul(pool.reserve_b).expect("overflow").checked_div(
        pool.lp_token_supply,
    ).expect("division by zero");
    (amount_a, amount_b)
}

/// Bounds on what burning `lp` of `supply` shares pays out of `reserve`.
proof fn lemma_withdraw_share_bounds(lp: int, reserve: int, supply: int)
    requires
        0 < lp <= supply,
        supply <= lp * reserve,
    ensures
        reserve > 0,
        0 < withdraw_share(lp, reserve, supply) <= reserve,
        withdraw_share(lp, reserve, supply) * supply <= lp * reserve,
        lp < supply ==> withdraw_share(lp, reserve, supply) < reserve,
        lp == supply ==> withdraw_share(lp, reserve, supply) == reserve,
{
    assert(reserve > 0) by (nonlinear_arith)
        requires
            0 < lp,
            0 < supply <= lp * reserve,
    ;
    let p = lp * reserve;
    lemma_quotient_bounds(p, supply);
    let w = p / supply;
    assert(w * supply <= p) by (nonlinear_arith)
        requires
            supply * w <= p,
    ;
    assert(w >= 1) by (nonlinear_arith)
        requires
            supply <= p,
            p < supply * (w + 1),
            supply > 0,
    ;
    assert(w <= reserve) by (nonlinear_arith)
        requires
            w * supply <= lp * reserve,
            lp <= supply,
            reserve > 0,
            supply > 0,
    ;
    if lp < supply {
        assert(w < reserve) by (nonlinear_arith)
            requires
                w * supply <= lp * reserve,
                lp < supply,
                reserve > 0,
                supply > 0,
        ;
    }
    if lp == supply {
        assert(p == reserve * supply) by (nonlinear_arith)
            requires
                p == lp * reserve,
                lp == supply,
        ;
        assert(p / supply == reserve) by (nonlinear_arith)
            requires
                p == reserve * supply,
                supply > 0,
        ;
    }
}

} // verus!
