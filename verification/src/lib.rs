//! A custodial vault ledger: per-identity balances moved under an
//! authorization gate, a risk-tier strategy table with a pure
//! signal-to-tier classifier, and an overwrite log of arbitrage
//! observations.
//!
//! The whole state machine is verified here. The surrounding host shim
//! (persistent storage, the host's authorization oracle) lives outside
//! the library and hands it plain values.

pub mod laws;
pub mod table;
pub mod vault;

pub use vault::ArbitrageLog;
pub use vault::Identity;
pub use vault::ObservationId;
pub use vault::StrategyTier;
pub use vault::VaultError;
pub use vault::YieldVault;
