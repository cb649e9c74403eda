use amm_pool::calculate_swap_out;

#[test]
fn test_swap_out_calculation() {
    let reserve_a: i128 = 1_000_000;
    let reserve_b: i128 = 500_000;
    let amount_in: i128 = 100_000;

    let amount_out = calculate_swap_out(reserve_a, reserve_b, amount_in, 30);
    assert!(amount_out > 0, "swap out must be positive");

    let fee = amount_in * 30 / 10000;
    let net_in = amount_in - fee;
    let expected_out = net_in * reserve_b / (reserve_a + net_in);
    assert_eq!(amount_out, expected_out, "swap calculation mismatch");
}

#[test]
fn test_invariant_holds_after_swap() {
    let reserve_a: i128 = 1_000_000;
    let reserve_b: i128 = 500_000;
    let k_before = reserve_a * reserve_b;

    let amount_in: i128 = 50_000;
    let amount_out = calculate_swap_out(reserve_a, reserve_b, amount_in, 30);

    let fee = amount_in * 30 / 10000;
    let net_in = amount_in - fee;

    let new_reserve_a = reserve_a + net_in;
    let new_reserve_b = reserve_b - amount_out;
    let k_after = new_reserve_a * new_reserve_b;

    assert!(k_after >= k_before, "invariant violated: k decreased");
}

#[test]
fn test_zero_fee_swap() {
    let reserve_a: i128 = 1_000_000;
    let reserve_b: i128 = 500_000;
    let amount_in: i128 = 100_000;

    let amount_out = calculate_swap_out(reserve_a, reserve_b, amount_in, 0);
    assert!(amount_out > 0);
}

#[test]
fn test_small_swap() {
    let reserve_a: i128 = 1_000_000_000;
    let reserve_b: i128 = 500_000_000;
    let amount_in: i128 = 1000;

    let amount_out = calculate_swap_out(reserve_a, reserve_b, amount_in, 30);
    assert!(amount_out > 0, "even smallest swap should produce output");
}

#[test]
fn swap_out_exact_values() {
    assert_eq!(calculate_swap_out(1_000_000, 500_000, 100_000, 30), 45_330);
    assert_eq!(calculate_swap_out(1_000_000, 500_000, 50_000, 30), 23_741);
    assert_eq!(calculate_swap_out(1_000_000, 500_000, 100_000, 0), 45_454);
    assert_eq!(calculate_swap_out(1_000_000_000, 500_000_000, 1_000, 30), 498);
}

#[test]
fn swap_out_never_drains_the_reserve() {
    let out = calculate_swap_out(1, 1_000, 1_000_000_000, 30);
    assert!(out < 1_000);
    assert_eq!(out, 999);
}

#[test]
fn tiny_swap_pays_nothing() {
    assert_eq!(calculate_swap_out(1_000_000, 10, 1, 30), 0);
}

#[test]
fn round_trip_swap_never_gains() {
    let (ra, rb, x) = (1_000_000i128, 500_000i128, 100_000i128);
    let out = calculate_swap_out(ra, rb, x, 30);
    let back = calculate_swap_out(rb - out, ra + x, out, 30);
    assert!(back <= x);
    let back_free = calculate_swap_out(rb - calculate_swap_out(ra, rb, x, 0), ra + x, calculate_swap_out(ra, rb, x, 0), 0);
    assert!(back_free <= x);
}
