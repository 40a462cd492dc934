//! Surfaces, session locking and secrets for a Wayland layer-shell toolkit,
//! with the decisions of each stated as contracts.

pub mod id_map;
pub mod platform;
pub mod renderer;
pub mod renderer_v2;
pub mod secret;
pub mod session_lock;
pub mod surface;
