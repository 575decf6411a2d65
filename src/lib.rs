//! Reflex control library: a checksummed container for decision-tree
//! ensembles, a deterministic tree evaluator, telemetry windows, control
//! policies with hold-time suppression, and two discrete-event queueing
//! simulators driven by an external clock.
//!
//! Real-valued (`f32`) quantities are carried as their IEEE-754 bit patterns
//! (`Real32`); times are integer microseconds supplied by the caller.

mod bytes;
pub mod float_bits;
pub mod format;
pub mod model;
pub mod pool;
pub mod stats;
pub mod telemetry;
pub mod transport;

pub use float_bits::Real32;
pub use format::{ArtifactError, Container, ModelType, ReflexHeader, HEADER_SIZE, MAGIC, VERSION};
pub use model::{InferError, OutputBounds, Reflex, ReflexMetadata, TreeNode};
pub use pool::{best_pool_size, PoolSizeDecision, PoolSizePolicy, Task, ThreadPoolSim, Worker};
pub use stats::ThroughputSample;
pub use telemetry::{ComputeTelemetry, TelemetrySample, WindowCollector, FEATURE_COUNT};
pub use transport::{FakeTransport, FlushDecision, FlushPolicy, Packet};
