//! Verified core of a voxel sandbox world: chunk storage, block coordinates,
//! terrain layering rules, procedural sampler decisions and world bookkeeping.

pub mod blocks;
pub mod geometry;
pub mod flags;
pub mod chunk;
pub mod coordinates;
pub mod hashing;
pub mod settings;
pub mod fluid;
pub mod streaming;
pub mod terrain;
pub mod caves;
pub mod lakes;
pub mod rivers;
pub mod big_lakes;
pub mod sediment;
pub mod underground;
pub mod trees;
pub mod biomes;
pub mod generator;
pub mod collections;
pub mod world;
pub mod generation;
pub mod launch;
pub mod streamer;
pub mod seeds;
pub mod meshing;
pub mod grass;
