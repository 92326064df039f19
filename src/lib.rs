//! A two-asset constant-product liquidity pool: reserve bookkeeping, liquidity-share
//! accounting, swaps with fee splitting and spread protection, and a time-weighted
//! cumulative-price oracle, all in exact integer arithmetic. Beside it, the reversible
//! address codec that test environments of such pools use.

pub mod asset;
pub mod error;
pub mod fixed_point;
pub mod liquidity;
pub mod mock_api;
pub mod oracle;
pub mod pool;
pub mod swap;
