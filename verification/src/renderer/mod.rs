//! What the renderer decides apart from the drawing itself: the order draw
//! commands are grouped in, how clips hang together, which textures are
//! kept, and when offscreen resources are held.

pub mod backdrop_pass;
pub mod clip;
pub mod dated_cache;
pub mod flatten;
pub mod image_quad;
pub mod image_texture;
pub mod primitives;
pub mod render;
pub mod text;
pub mod text_mask;
pub mod text_quad;
pub mod types;
