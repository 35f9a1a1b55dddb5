//! Conversion of voxelized models into Minecraft block structures.
pub mod geom;
pub mod voxel;
pub mod nbt;
pub mod palette;
pub mod optimize;
pub mod pack;
pub mod compress;
pub mod export;
pub mod region;
pub mod voxelize;
pub mod import;
pub mod session;
