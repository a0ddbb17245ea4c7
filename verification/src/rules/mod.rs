//! The removal rule, its parts, and the laws that hold of it.

pub mod text;
pub mod extension;
pub mod literal;
pub mod pattern;
pub mod spans;
pub mod remove;
pub mod laws;
