pub mod animation;
pub mod data;
pub mod log;
pub mod pattern;
pub mod state;
pub mod tab;
pub mod tag;
pub mod text;
pub mod theme;
