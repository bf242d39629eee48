//! The player's logic: which frame is shown and when, which frames stay in memory and which
//! are loaded next, how planar images become thumbnails, how colour lookup tables are laid out
//! and read, and what the window and the interface do about what happens to them.
pub mod cache;
pub mod exr;
pub mod grid;
pub mod lut;
pub mod number;
pub mod ocio;
pub mod orchestrator;
pub mod playback;
pub mod preview;
pub mod renderer;
pub mod thumbnail;
pub mod ui;
pub mod window;
