//! The render-tree renderer's ordering of draw commands.

pub mod flatten;
