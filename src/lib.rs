pub mod grid;
pub mod laws;
pub mod life;
pub mod render;
pub mod seed;
