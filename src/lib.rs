//! Incremental synchronisation of price candles into bounded per-instrument tables.

pub mod candles;
pub mod catalog;
pub mod granularity;
pub mod naming;
pub mod orchestrator;
pub mod sync;
pub mod table;
pub mod text;

pub use candles::CandleMeta;
pub use granularity::Granularity;
pub use naming::TableName;
pub use sync::{RunSummary, SyncError};
pub use table::CandleTable;
