pub mod transaction;
pub mod types;
pub mod usage_cap;
pub mod coin_store;
pub mod pool;
pub mod chain;
