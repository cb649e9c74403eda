use amm_pool::{calculate_initial_lp, calculate_lp_mint, calculate_withdraw, sqrt, LiquidityPool};

fn make_pool(reserve_a: i128, reserve_b: i128, lp_supply: i128) -> LiquidityPool<&'static str> {
    LiquidityPool {
        token_a: "token-a",
        token_b: "token-b",
        reserve_a,
        reserve_b,
        lp_token_supply: lp_supply,
        fee_bps: 30,
    }
}

#[test]
fn test_initial_lp_calculation() {
    let lp = calculate_initial_lp(1_000_000, 500_000);
    assert!(lp > 0, "initial lp must be positive");
    let expected = sqrt(1_000_000 * 500_000);
    assert_eq!(lp, expected);
}

#[test]
fn test_lp_mint_proportional() {
    let pool = make_pool(1_000_000, 500_000, 100_000);
    let lp = calculate_lp_mint(&pool, 100_000, 50_000);
    let expected_a = 100_000 * 100_000 / 1_000_000;
    let expected_b = 50_000 * 100_000 / 500_000;
    assert_eq!(lp, expected_a);
    assert_eq!(expected_a, expected_b, "proportional deposit should yield equal shares");
}

#[test]
fn test_lp_mint_uses_smaller_share() {
    let pool = make_pool(1_000_000, 500_000, 100_000);
    let lp = calculate_lp_mint(&pool, 100_000, 30_000);
    let expected_b = 30_000 * 100_000 / 500_000;
    assert_eq!(lp, expected_b, "should use the smaller ratio");
}

#[test]
fn test_withdraw_full_lp() {
    let pool = make_pool(1_000_000, 500_000, 100_000);
    let (a, b) = calculate_withdraw(&pool, 100_000);
    assert_eq!(a, 1_000_000, "full withdrawal should return all tokens");
    assert_eq!(b, 500_000, "full withdrawal should return all tokens");
}

#[test]
fn test_withdraw_half_lp() {
    let pool = make_pool(1_000_000, 500_000, 100_000);
    let (a, b) = calculate_withdraw(&pool, 50_000);
    assert_eq!(a, 500_000, "half withdrawal should return half tokens");
    assert_eq!(b, 250_000, "half withdrawal should return half tokens");
}

#[test]
fn test_fee_proportion_on_withdraw() {
    let pool = make_pool(1_000_000, 500_000, 100_000);
    let lp_initial = pool.lp_token_supply;

    let (withdraw_a, withdraw_b) = calculate_withdraw(&pool, lp_initial);
    assert_eq!(withdraw_a, pool.reserve_a);
    assert_eq!(withdraw_b, pool.reserve_b);
}

#[test]
fn sqrt_of_small_numbers() {
    assert_eq!(sqrt(0), 0);
    assert_eq!(sqrt(1), 1);
    assert_eq!(sqrt(2), 1);
    assert_eq!(sqrt(3), 1);
    assert_eq!(sqrt(4), 2);
    assert_eq!(sqrt(15), 3);
    assert_eq!(sqrt(16), 4);
    assert_eq!(sqrt(17), 4);
}

#[test]
fn sqrt_of_largest_accepted_input() {
    assert_eq!(sqrt(i128::MAX - 1), 13043817825332782212);
}

#[test]
fn sqrt_is_the_integer_root() {
    for n in [5i128, 99, 100, 101, 123_456_789, 999_999_999_999] {
        let r = sqrt(n);
        assert!(r * r <= n && n < (r + 1) * (r + 1));
    }
}

#[test]
fn initial_lp_is_rounded_down_geometric_mean() {
    assert_eq!(calculate_initial_lp(1_000_000, 500_000), 707_106);
    assert_eq!(calculate_initial_lp(1, 1), 1);
    assert_eq!(calculate_initial_lp(1_000, 4_000), 2_000);
}

#[test]
fn lp_mint_never_exceeds_proportional_share() {
    let pool = make_pool(1_100, 3_637, 2_000);
    let lp = calculate_lp_mint(&pool, 200, 600);
    assert_eq!(lp, 329);
    assert!(lp * 1_100 <= 200 * 2_000);
    assert!(lp * 3_637 <= 600 * 2_000);
}

#[test]
fn lp_mint_of_tiny_deposit_is_zero() {
    let pool = make_pool(1_000_000, 500_000, 100);
    assert_eq!(calculate_lp_mint(&pool, 1, 1), 0);
}

#[test]
fn partial_withdraw_rounds_down_and_leaves_reserves() {
    let pool = make_pool(1_000, 333, 7);
    let (a, b) = calculate_withdraw(&pool, 3);
    assert_eq!(a, 428);
    assert_eq!(b, 142);
    assert!(a < 1_000 && b < 333);
}
