//! Streaming discrete calculus over timestamped inertial telemetry.
//!
//! The crate ingests a single-pass stream of samples (a time delta plus three
//! scalar channels) and derives higher-order motion quantities through
//! repeated discrete differentiation and integration, optionally smoothed by
//! a windowed weighted average and optionally grouped into fixed-width lanes
//! for batch arithmetic. One producer stream can be split into several
//! independently pulled consumer streams, one per channel, without buffering
//! the whole dataset.
//!
//! Scalars are `i64` values; callers that sample physical quantities are
//! expected to convert to a fixed-point representation at the boundary.

pub mod calculus;
pub mod circbuf;
pub mod iter_calculus;
pub mod lanes;
pub mod noconsume;
pub mod pipeline;
pub mod smoothing;
pub mod stream;

pub use circbuf::CircBuf;
pub use circbuf::Iter;
pub use lanes::CalcMode;
pub use lanes::LaneBatcher;
pub use lanes::LaneOp;
pub use noconsume::Delivery;
pub use noconsume::NCIterChild;
pub use noconsume::Teeterator;
pub use noconsume::Unziperator;
pub use smoothing::WeightedMovingAvg;
pub use stream::Stream;
pub use stream::Tuple4;
pub use stream::VecStream;
