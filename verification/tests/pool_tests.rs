use amm_pool::{AmmError, AmmPool, LiquidityPool, FEE_BPS, LP_TOKEN_NAME};

fn fresh() -> LiquidityPool<&'static str> {
    AmmPool::initialize(false, "token-a", "token-b").unwrap()
}

fn make_pool(reserve_a: i128, reserve_b: i128, lp_supply: i128) -> LiquidityPool<&'static str> {
    LiquidityPool {
        token_a: "token-a",
        token_b: "token-b",
        reserve_a,
        reserve_b,
        lp_token_supply: lp_supply,
        fee_bps: 30,
    }
}

#[test]
fn initialize_creates_empty_pool() {
    let pool = fresh();
    assert_eq!(pool, make_pool(0, 0, 0));
    assert_eq!(pool.fee_bps, FEE_BPS);
    assert_eq!(FEE_BPS, 30);
    assert_eq!(LP_TOKEN_NAME, "LP-AMM");
}

#[test]
fn initialize_twice_is_refused() {
    assert_eq!(AmmPool::initialize(true, "token-a", "token-b"), Err(AmmError::AlreadyInitialized));
}

#[test]
fn deposit_swap_withdraw_scenario() {
    let mut pool = fresh();
    let mut alice: i128 = 0;
    assert_eq!(AmmPool::deposit(&mut pool, &mut alice, 1_000, 4_000, 0), Ok(2_000));
    assert_eq!(pool, make_pool(1_000, 4_000, 2_000));
    assert_eq!(alice, 2_000);

    assert_eq!(AmmPool::swap_exact_a_for_b(&mut pool, 100, 0), Ok(363));
    assert_eq!(pool, make_pool(1_100, 3_637, 2_000));

    let mut bob: i128 = 0;
    assert_eq!(AmmPool::deposit(&mut pool, &mut bob, 200, 600, 0), Ok(329));
    assert_eq!(pool, make_pool(1_300, 4_237, 2_329));
    assert_eq!(bob, 329);

    assert_eq!(AmmPool::withdraw(&mut pool, &mut alice, 2_000, 0, 0), Ok((1_116, 3_638)));
    assert_eq!(alice, 0);
    assert_eq!(AmmPool::withdraw(&mut pool, &mut bob, 329, 0, 0), Ok((184, 599)));
    assert_eq!(pool, make_pool(0, 0, 0));
    assert_eq!(bob, 0);
}

#[test]
fn swap_b_for_a_moves_reserves_the_other_way() {
    let mut pool = make_pool(1_000_000, 500_000, 100_000);
    assert_eq!(AmmPool::swap_exact_b_for_a(&mut pool, 50_000, 0), Ok(90_661));
    assert_eq!(pool, make_pool(909_339, 550_000, 100_000));
}

#[test]
fn swap_keeps_product_of_reserves() {
    let mut pool = make_pool(1_000_000, 500_000, 100_000);
    let k_before = pool.reserve_a * pool.reserve_b;
    AmmPool::swap_exact_a_for_b(&mut pool, 50_000, 0).unwrap();
    assert!(pool.reserve_a * pool.reserve_b >= k_before);
    let k_mid = pool.reserve_a * pool.reserve_b;
    AmmPool::swap_exact_b_for_a(&mut pool, 7_777, 0).unwrap();
    assert!(pool.reserve_a * pool.reserve_b >= k_mid);
}

#[test]
fn deposit_then_withdraw_returns_at_most_deposit() {
    let mut pool = make_pool(1_100, 3_637, 2_000);
    let mut carol: i128 = 0;
    let lp = AmmPool::deposit(&mut pool, &mut carol, 200, 600, 0).unwrap();
    let (a, b) = AmmPool::withdraw(&mut pool, &mut carol, lp, 0, 0).unwrap();
    assert!(a <= 200 && b <= 600);
    assert_eq!((a, b), (183, 598));
}

#[test]
fn full_withdrawal_includes_fees_earned() {
    let mut pool = fresh();
    let mut lp_holder: i128 = 0;
    let lp = AmmPool::deposit(&mut pool, &mut lp_holder, 1_000_000, 500_000, 0).unwrap();
    let out = AmmPool::swap_exact_a_for_b(&mut pool, 100_000, 0).unwrap();
    let back = AmmPool::swap_exact_b_for_a(&mut pool, out, 0).unwrap();
    assert!(back < 100_000);
    let (a, b) = AmmPool::withdraw(&mut pool, &mut lp_holder, lp, 0, 0).unwrap();
    assert_eq!(b, 500_000);
    assert_eq!(a, 1_000_000 + 100_000 - back);
    assert!(a > 1_000_000);
}

#[test]
fn deposit_errors() {
    let mut pool = make_pool(1_000, 1_000, 1_000);
    let mut bal: i128 = 5;
    assert_eq!(AmmPool::deposit(&mut pool, &mut bal, 0, 500_000, 0), Err(AmmError::AmountsMustBePositive));
    assert_eq!(AmmPool::deposit(&mut pool, &mut bal, 10, -1, 0), Err(AmmError::AmountsMustBePositive));
    assert_eq!(AmmPool::deposit(&mut pool, &mut bal, 10, 10, 11), Err(AmmError::SlippageLpOutTooLow));
    assert_eq!(AmmPool::deposit(&mut pool, &mut bal, i128::MAX, 10, 0), Err(AmmError::Overflow));
    assert_eq!(pool, make_pool(1_000, 1_000, 1_000));
    assert_eq!(bal, 5);

    let mut empty = fresh();
    assert_eq!(AmmPool::deposit(&mut empty, &mut bal, 1, i128::MAX, 0), Err(AmmError::Overflow));
    assert_eq!(AmmPool::deposit(&mut empty, &mut bal, 2, i128::MAX, 0), Err(AmmError::Overflow));

    let mut negative = make_pool(1_000, 1_000, -1);
    assert_eq!(AmmPool::deposit(&mut negative, &mut bal, 1, 1, 0), Err(AmmError::PoolHasNoLiquidity));
    let mut dry = make_pool(0, 1_000, 10);
    assert_eq!(AmmPool::deposit(&mut dry, &mut bal, 1, 1, 0), Err(AmmError::PoolReservesMustBePositive));

    let mut full_balance: i128 = i128::MAX;
    assert_eq!(AmmPool::deposit(&mut pool, &mut full_balance, 10, 10, 0), Err(AmmError::Overflow));
    assert_eq!(full_balance, i128::MAX);
}

#[test]
fn withdraw_errors() {
    let mut pool = make_pool(1_000_000, 500_000, 100_000);
    let mut bal: i128 = 50_000;
    assert_eq!(AmmPool::withdraw(&mut pool, &mut bal, 0, 0, 0), Err(AmmError::LpAmountMustBePositive));
    assert_eq!(AmmPool::withdraw(&mut pool, &mut bal, 200_000, 0, 0), Err(AmmError::InsufficientLpSupply));
    assert_eq!(AmmPool::withdraw(&mut pool, &mut bal, 60_000, 0, 0), Err(AmmError::InsufficientLpBalance));
    assert_eq!(
        AmmPool::withdraw(&mut pool, &mut bal, 50_000, 500_001, 0),
        Err(AmmError::SlippageWithdrawTooLow)
    );
    assert_eq!(
        AmmPool::withdraw(&mut pool, &mut bal, 50_000, 0, 250_001),
        Err(AmmError::SlippageWithdrawTooLow)
    );
    let mut thin = make_pool(1_000, 5, 1_000);
    let mut thin_bal: i128 = 1_000;
    assert_eq!(AmmPool::withdraw(&mut thin, &mut thin_bal, 100, 0, 0), Err(AmmError::WithdrawAmountsMustBePositive));
    let mut huge = make_pool(i128::MAX, 5, 10);
    let mut huge_bal: i128 = 10;
    assert_eq!(AmmPool::withdraw(&mut huge, &mut huge_bal, 2, 0, 0), Err(AmmError::Overflow));
    assert_eq!(pool, make_pool(1_000_000, 500_000, 100_000));
    assert_eq!(bal, 50_000);
    assert_eq!(AmmPool::withdraw(&mut pool, &mut bal, 50_000, 500_000, 250_000), Ok((500_000, 250_000)));
    assert_eq!(bal, 0);
}

#[test]
fn swap_errors() {
    let mut pool = make_pool(1_000_000, 500_000, 100_000);
    assert_eq!(AmmPool::swap_exact_a_for_b(&mut pool, 0, 0), Err(AmmError::AmountInMustBePositive));
    assert_eq!(AmmPool::swap_exact_a_for_b(&mut pool, 100_000, 45_331), Err(AmmError::SlippageOutTooLow));
    assert_eq!(AmmPool::swap_exact_a_for_b(&mut pool, i128::MAX, 0), Err(AmmError::Overflow));
    assert_eq!(pool, make_pool(1_000_000, 500_000, 100_000));

    let mut empty = fresh();
    assert_eq!(AmmPool::swap_exact_a_for_b(&mut empty, 100_000, 0), Err(AmmError::InsufficientLiquidity));
    assert_eq!(AmmPool::swap_exact_b_for_a(&mut empty, 100_000, 0), Err(AmmError::InsufficientLiquidity));

    let mut bad_fee = make_pool(1_000, 1_000, 1_000);
    bad_fee.fee_bps = 10_000;
    assert_eq!(AmmPool::swap_exact_b_for_a(&mut bad_fee, 10, 0), Err(AmmError::FeeExceedsMaximum));

    let mut edge = make_pool(i128::MAX - 5, 1_000, 1_000);
    assert_eq!(AmmPool::swap_exact_a_for_b(&mut edge, 5, 0), Ok(0));
    assert_eq!(AmmPool::swap_exact_a_for_b(&mut edge, 1, 0), Err(AmmError::Overflow));
}
