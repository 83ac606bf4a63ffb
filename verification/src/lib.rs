pub mod keys;
pub mod input;
pub mod asset;
pub mod scene;
pub mod tilemap;
pub mod sprite;
pub mod asset2;
pub mod particle;
pub mod particle2;
pub mod bitmap_font;
pub mod sprite_loader;
pub mod ecs;
