//! Render-side layout decisions that do not touch the GPU: where textures go
//! in the terrain atlas, which texture each material uses, and how model
//! instances are grouped into draw ranges.

pub mod texarray;
pub mod terrain_textures;
pub mod model_pass;
pub mod cursors;
pub mod models;
