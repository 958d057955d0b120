pub mod bounds;
pub mod edge;
pub mod board;
pub mod render;
pub mod laws;
