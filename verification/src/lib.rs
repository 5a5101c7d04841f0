//! Self-similar fractal curves drawn from Lindenmayer systems.
//!
//! A fractal is given by a grammar (a starting word and one production per symbol)
//! and by the turtle motions that each symbol stands for. The library
//! expands the grammar to the requested depth and turns the resulting
//! symbols, in order, into an exact list of turtle commands. Everything is
//! integer-valued; a renderer converts to floating point at its own edge.

pub mod cesaro;
pub mod color;
pub mod lindenmayer;
pub mod turtle;
