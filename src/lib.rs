//! Prediction-market core: a constant-product AMM for YES/NO outcome shares, an oracle
//! consensus engine, and the treasury and market factory around them.

pub mod amm;
pub mod amm_proofs;
pub mod book;
pub mod factory;
pub mod ids;
pub mod math;
pub mod oracle;
pub mod pool;
pub mod treasury;

pub use amm::{AmmConfig, PoolState, PricingModel, AMM};
pub use book::Balance;
pub use factory::{FactoryError, MarketFactory, MarketRecord};
pub use ids::{Address, MarketId};
pub use oracle::{Attestation, MarketAttestations, OracleError, OracleInfo, OracleManager};
pub use pool::{AmmError, Pool, TradeRecord, TradeSide};
pub use treasury::{FeeRatios, Payout, Treasury, TreasuryError};
