//! Render chunks: the region is cut into cubes of `CHUNK_SIZE` tiles a side,
//! each rebuilt on its own when a tile inside it changes.

pub mod constants;
pub mod chunk;
pub mod chunks;
