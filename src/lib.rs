//! Attention monitor core: a presence/blink sampler that turns per-frame eye
//! counts into interval records, and an interval log that folds every batch of
//! interval records into one average record.

pub mod backend;
pub mod sampler;
pub mod store;
pub mod timestamp;

pub use backend::{parse_pid, PythonExecutionResult};
pub use sampler::{FrameOutcome, IntervalEntry, PresenceSampler, SamplerConfig, SamplerState};
pub use store::{AvgEntry, IntervalLog, IntervalRow, LogState, RollupPlan, ROLLUP_BATCH, plan_rollup};
pub use timestamp::{Timestamp, MAX_TEXT_MILLIS};
