//! Image-sequence processing for planetary-disk imagery.
//!
//! * [`disk`] finds the planetary disk in an image, with [`circle`] to
//!   rasterize the circles it probes and [`image`] to hold the pixels.
//! * [`projection::playback`] decides which frame is shown as time passes,
//!   cycling or bouncing back and forth, and [`projection::source_view`]
//!   keeps the sequence on display.
//! * [`subscriber`] tells the views that are still alive of every change.
//! * [`projection::worker`] decides what the background worker does next
//!   while it loads a batch of images or exports a sequence of projections.
//!
//! The functions are verified against their contracts, and the properties
//! that hold of several functions together are stated as proof functions
//! beside them. The one exception is the look into a channel of another
//! thread, which [`channel`] wraps and of whose outcome nothing is claimed.

pub mod args;
pub mod channel;
pub mod circle;
pub mod disk;
pub mod gui;
pub mod image;
pub mod img_seq;
pub mod projection;
pub mod subscriber;
pub mod text;
