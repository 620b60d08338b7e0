pub mod ecs;
pub mod engine;
pub mod grid;
pub mod level;
pub mod logistics;
pub mod position;
pub mod soko;
pub mod sprites;
