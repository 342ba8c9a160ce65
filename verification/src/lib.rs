//! A verified codec and editor for the achievements file of a
//! factory-automation game: a size-prefixed, tag-discriminated binary
//! container recording per-player achievement progress.
//!
//! The library decodes a byte stream into a file tree, lets the caller list
//! or reset the progress of named achievements, and re-encodes the tree
//! byte-for-byte.

pub mod dec;
pub mod enc;
pub mod error;
pub mod laws;
pub mod locality;
pub mod model;
pub mod ops;
pub mod progress;
pub mod roundtrip;
pub mod tags;

pub use error::CodecError;
pub use tags::ProgressKind;
pub use progress::AchievementProgress;
pub use model::{AchievementContent, AchievementHeader, AchievementsDat, HeaderSubobject, SpaceOptimizedString};
