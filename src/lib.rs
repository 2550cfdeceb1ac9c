//! A glTF scene-graph loader and keyframe animation sampler, verified with Verus.
//!
//! All geometry is fixed-point: a scalar is an `i64` holding its value times
//! [`fixed::ONE`] (16 fractional bits), and matrices are row-major arrays of such scalars.
//! Keyframe times are unsigned tick counts in a unit the caller chooses.
//!
//! - [`animation`]: channels of keyframes and the cursor-accelerated linear sampler.
//! - [`transform`]: a node's animation override and its `T * R * S` matrix.
//! - [`scene`]: node graphs stored as arenas, world transforms, joint matrices and the
//!   draw list.
//! - [`builder`]: building a node graph from a document's node table.
//! - [`vertex`]: vertex assembly, packing and the matching attribute layout.
//! - [`asset`]: an imported asset and advancing all its animations at once.

use vstd::prelude::*;

pub mod animation;
pub mod asset;
pub mod builder;
pub mod camera;
pub mod fixed;
pub mod matrix;
pub mod scene;
pub mod texture;
pub mod transform;
pub mod vertex;

verus! {

} // verus!
