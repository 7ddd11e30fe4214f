//! The assets that objects of a serialized file hold.

pub mod common;
pub mod text;
pub mod texture;
pub mod audio;
pub mod sprite;
pub mod mono;
