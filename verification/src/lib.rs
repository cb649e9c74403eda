//! Constant-product automated market maker: the pricing, liquidity-share and
//! pool-state rules of a two-asset liquidity pool, with their contracts.

pub mod lp;
pub mod pool;
pub mod swap;

pub use lp::{calculate_initial_lp, calculate_lp_mint, calculate_withdraw, sqrt};
pub use pool::{AmmError, AmmPool, LiquidityPool, FEE_BPS, LP_TOKEN_NAME};
pub use swap::calculate_swap_out;
