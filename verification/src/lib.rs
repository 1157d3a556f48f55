//! Render a numeric time series as a text-mode line graph on a fixed-size
//! character canvas.
//!
//! The library covers the whole graph-building pipeline: a colorable cell
//! canvas with an inset drawable region, nearest-index downsampling, linear
//! scaling of values onto character rows (or braille sub-rows), sliding-window
//! truncation, and one renderer per graph style (points, connected line
//! segments, braille dot packing).  Series values are integers; reading input
//! and probing the terminal are left to the surrounding program.

pub mod graph;
pub mod graph_canvas;
pub mod numfmt;
pub mod parseopts;
pub mod sampling;
