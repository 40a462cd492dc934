//! The shape types the primitive pipeline draws with.

pub use super::types::{Gradient, GradientDir};
