//! A minimal real-time-strategy prototype core: a tile map, a resource
//! economy, a fixed-timestep simulation clock, and a software rasterizer
//! that turns a queue of flat-colored quads into a pixel buffer and exports
//! it as a PPM image.
//!
//! Colors and world coordinates are held in fixed-point per-mille units
//! (1000 fixed-point units == 1.0), so every computation is exact integer
//! arithmetic.

pub mod color;
pub mod framebuffer;
pub mod numfmt;
pub mod raster;
pub mod sim;
pub mod tilemap;

pub use color::Color;
pub use color::Rgb;
pub use color::color_to_rgb;
pub use color::rgb_to_color;
pub use framebuffer::FrameBuffer;
pub use raster::OpenGlRenderQueue;
pub use raster::PlaceholderTexture;
pub use raster::Quad;
pub use raster::build_demo_render_queue;
pub use raster::render_queue_to_framebuffer;
pub use sim::FIXED_TICK_MS;
pub use sim::GameState;
pub use sim::ResourceKind;
pub use sim::ResourcePool;
pub use tilemap::Tile;
pub use tilemap::TileMap;
pub use tilemap::TilePos;
