//! Conway's Game of Life on a fixed-size grid with wrapped edges.
//!
//! The engine lives in [`board`]: a double-buffered grid whose generations
//! advance under the classic birth/survival rules, with an asymmetric edge
//! policy (true wraparound on the negative side, reflection past the far
//! edge). [`render`] turns a board into a bordered block of text.

pub mod board;
pub mod render;
