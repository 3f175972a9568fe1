//! Assembly of a voxel world from elevation rasters: the coordinate model,
//! the per-column terrain policy, overlay arbitration, slope statistics and
//! the paletted, bit-packed section encoding of the Anvil chunk format.
use vstd::prelude::*;

pub mod coords;
pub mod packing;
pub mod overlay;
pub mod slope;
pub mod terrain;
pub mod chunk;
pub mod section;
pub mod encode;
pub mod region;
pub mod world;
pub mod chunk_map;
pub mod raster;
pub mod text;
pub mod wmts;
pub mod config;
pub mod meta;
pub mod cli;
pub mod fetch;
pub mod buildings;
