//! A persistent, effectively infinite 3D tile world.
//!
//! World positions are signed integer coordinates on all three axes. The
//! world is split into fixed-size chunks held in growable dense grids, so
//! signed chunk coordinates are mapped onto array indices by a zigzag
//! encoding. Explicit edits live in one grid of chunks; procedurally
//! generated terrain is memoized in a second grid and composed from
//! integer noise buffers. Edited chunks can be serialized into a sparse,
//! row-oriented cell format and parsed back.

pub mod cell;
pub mod chunk;
pub mod codec;
pub mod cursor;
pub mod image;
pub mod map;
pub mod noise;
pub mod persist;
pub mod tile;
