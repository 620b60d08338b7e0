pub mod components;
pub mod entity;
pub mod type_map;
pub mod world;
