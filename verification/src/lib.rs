//! Step-sequenced colour detection zones over a video frame.
//!
//! A zone is a rectangle of the frame with a step sequencer of its own. The
//! sequencer walks a fixed grid of steps in wall-clock time, and its position
//! selects one slice of the zone, the active region. Each time a sequencer
//! takes a step, the active region is sampled from the current frame, the
//! share of its pixels that lie in a fixed colour range is measured, and one
//! trigger goes out that carries the sequencer's identity and the share as a
//! velocity from 0 to 127.
//!
//! - [`sequencer`]: the step clock and its edge flag.
//! - [`geometry`]: points and rectangles in screen space and logical space.
//! - [`zone`]: a rectangle with its sequencer, and its active region.
//! - [`editor`]: the two-state machine that turns a drag into a rectangle.
//! - [`frame`]: frames, and sampling a rectangle from a frame.
//! - [`detector`]: coverage of a sub-image and the trigger made from it.
//! - [`registry`]: the committed zones and the tick that drives them.

pub mod detector;
pub mod editor;
pub mod frame;
pub mod geometry;
pub mod registry;
pub mod sequencer;
pub mod zone;
