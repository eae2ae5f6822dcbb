pub mod archetype;
pub mod components;
pub mod scene;
pub mod scene_serializer;
pub mod type_info;
pub mod world;
