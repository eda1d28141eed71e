pub mod minimap;
pub mod textures;
