//! Materials lists for Minecraft Bedrock structure files.
//!
//! A structure file decodes to a tree of tagged values. This library maps
//! such a tree onto the structure's typed layout, resolves the block palette
//! into block identities, counts the voxel grid against them and folds the
//! counts into display names.

pub mod aggregate;
pub mod blockgen;
pub mod cli;
pub mod counts;
pub mod error;
pub mod laws;
pub mod materials;
pub mod names;
pub mod normalize;
pub mod project;
pub mod rendering;
pub mod schema;
pub mod tag;
pub mod text;
