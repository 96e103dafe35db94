//! Identifies maintenance hotspots in a version-controlled source tree:
//! files that are frequently changed, structurally substantial, and touched
//! by few distinct authors.  The history-mining accumulator, the time-window
//! and root-commit gates, the size signal, and the score composition are all
//! specified and verified here; reading the repository, the disk and the
//! terminal is left to unverified callers, which hand plain values in.

pub mod config;
pub mod dates;
pub mod errors;
pub mod filter;
pub mod metrics;
pub mod penalty;
pub mod render;
pub mod score;
pub mod sizes;

pub use errors::AnalysisError;
pub use metrics::ChurnEntry;
pub use metrics::GitMetrics;
