//! Skeletal animation playback: keyframe sampling, clip playheads, crossfades and
//! weighted blends over a static node hierarchy.
//!
//! All scalar quantities are fixed-point integers. Ticks are counted in units of one
//! billionth ([`transform::ONE`] is one whole tick), weights in units of which
//! [`transform::FULL_WEIGHT`] is the whole, time in microseconds, and a rate says by
//! how many such units a quantity moves in one microsecond, so that a playhead rate
//! of 1000 is one whole tick in a second.
//! Poses are kept as expressions over the authored transforms, so that
//! every blend the animator performs is recorded exactly and can be evaluated by a
//! numeric backend afterwards.
pub mod animator;
pub mod error;
pub mod file_name;
pub mod hash_map;
pub mod model_animation;
pub mod node_animation;
pub mod node_map;
pub mod proofs;
pub mod texture_config;
pub mod transform;
pub mod utils;
