# amm_pool

A constant-product (`x * y = k`) liquidity pool for two tokens, verified with Verus.

- `src/swap.rs`: swap pricing with a fee in basis points (`calculate_swap_out`), and the
  proofs that a swap never lowers the product of the reserves, never pays out a whole
  reserve, and that a round trip never gains.
- `src/lp.rs`: liquidity shares: the integer square root (`sqrt`), the shares minted by the
  first deposit (`calculate_initial_lp`) and later ones (`calculate_lp_mint`), and the
  payout of burned shares (`calculate_withdraw`).
- `src/pool.rs`: the pool state `LiquidityPool`, and `AmmPool`'s operations (`initialize`,
  `deposit`, `withdraw`, `swap_exact_a_for_b`, `swap_exact_b_for_a`), each of which either
  applies a request or refuses it with an `AmmError`, and keeps the pool valid.
- `app/lib.rs`: the Soroban contract: storage, authorization and token transfers around
  the verified operations.
