pub mod ecs;
pub mod editor;
pub mod events;
pub mod graphics;
pub mod hashmap;
