//! Driver core for a row-multiplexed, binary-color RGB LED matrix panel.
//!
//! The crate covers the panel-refresh subsystem: the frame buffer encoding
//! ([`img_buffer`]), the row address/scan state machine and bit-banging
//! protocol ([`hub75`]), and the small parsers and data holders that feed
//! rendered pixel content into the buffer ([`ppm`], [`font`], [`mta`]).

pub mod error;
pub mod font;
pub mod hub75;
pub mod img_buffer;
pub mod mta;
pub mod ppm;
