//! The core of an editor for small weighted directed graphs.
//!
//! * [`graph`] stores nodes and their outgoing edges.
//! * [`search`] answers shortest-path queries, over the [`frontier`] and with
//!   the notions of [`paths`].
//! * [`editor`] holds the interaction state and turns input signals into
//!   changes of the graph; [`signals`] and [`frame`] batch them, and
//!   [`pointer`] finds what a click or a drag hits.
//! * [`render`] derives what a frame shows.
//! * [`text`] reads and writes the numbers in the text buffers, and
//!   [`geometry`] measures the canvas.
//!
//! Positions are whole canvas units and weights are thousandths of a unit
//! weight, so that everything here is exact integer arithmetic.

pub mod editor;
pub mod frame;
pub mod frontier;
pub mod geometry;
pub mod graph;
pub mod paths;
pub mod pointer;
pub mod render;
pub mod search;
pub mod signals;
pub mod text;
