//! Engine of a synthetic load generator for object stores: a bounded store of
//! work tokens, a parser for weighted distributions, and the aggregation of
//! per-request measurements into reports and stop decisions.

pub mod distribution;
pub mod error;
pub mod queue;
pub mod stats;
pub mod text;
pub mod worker;

pub use distribution::{
    convert_numeric_distribution, convert_operation_distribution, expand_distribution, parse_human,
};
pub use error::ChumError;
pub use queue::{Queue, QueueMode, QueueModeError, DEF_QUEUE_CAP};
pub use stats::{CapAction, DataCap, OutputFormat, StatsCollector};
pub use worker::{Operation, WorkerInfo, WorkerStat};
