//! Core logic of a tile synthesizer: draggable nodes snap to a grid,
//! the nodes standing in "chain" slots form an ordered signal chain, and
//! that chain drives a sample-based audio graph.
//!
//! All geometry and audio arithmetic is fixed-point: positions are held in
//! thousandths of a world unit, angles in milliradians, samples in
//! thousandths of full amplitude.

pub mod geom;
pub mod trig;
pub mod node;
pub mod grid;
pub mod audio;
pub mod buffer;
pub mod world;
