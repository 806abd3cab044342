//! The custody contract: listings, deposits, withdraw requests, announced
//! keys, and the operator's withdraw decisions and trade batches.
pub mod asset_manager;
pub mod error;
pub mod operator_handlers;
pub mod storage_types;
pub mod trade_upload;
