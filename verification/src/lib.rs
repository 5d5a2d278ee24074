//! A simulator for hierarchical viewport caching of 360-degree video.
//!
//! Viewports live on a panorama `3840` pixels wide that wraps around
//! horizontally.  For every frame a user watches, the simulator picks the
//! object path whose viewport best covers what the user saw, and decides from
//! which cache level (a first-level viewport, an enlarged second-level
//! viewport, or the full frame) the frame is served.
pub mod ratio;
pub mod text;
pub mod ds;
pub mod simulator;

pub use ratio::Ratio;
pub use ds::{Viewport, Frame};
pub use text::{TraceRecord, split_bytes, parse_i32, parse_usize, parse_trace_line, parse_user_line};
pub use simulator::{CacheLevel, Hit, VideoObject, Simulator};
