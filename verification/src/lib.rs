//! Verified core of the Nox Futura colony simulation: region indexing,
//! render chunks, message queues and the decisions taken when they drain.

pub mod spatial;
pub mod chunks;
pub mod region;
pub mod components;
pub mod distance;
pub mod messaging;
pub mod playgame;
pub mod render;
pub mod main_menu;
