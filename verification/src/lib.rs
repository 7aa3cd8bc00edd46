//! Atomic theme publishing for a Wayland desktop.
//!
//! The library loads a named theme's variables, renders a two-tier template
//! tree against them, and publishes the result with a stage-then-rename
//! protocol, so that a reader of the published path sees either the whole
//! previous generation or the whole new one, never a mix. A deterministic
//! wallpaper rotation shares the same forced-symlink primitive.
//!
//! Everything that decides or computes lives here, verified; reading the
//! environment, walking real directories, performing the planned filesystem
//! actions and invoking desktop tools belong to the thin binary around the
//! library.

pub mod apply;
pub mod ctx;
pub mod errors;
pub mod mapping;
pub mod parser;
pub mod render;
pub mod theme;
pub mod transaction;
pub mod util;
pub mod vars;
pub mod wallpaper;
