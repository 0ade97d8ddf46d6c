//! Wallpaper slideshow logic: the order in which images are shown, the image
//! queue of each output and how it follows changes in the watched directory,
//! the bookkeeping of the per-output state that is saved between sessions,
//! and the integer geometry of the scaling modes.

pub mod order;
pub mod paths;
pub mod queue;
pub mod wallpaper;
pub mod state;
pub mod scaler;
pub mod events;
