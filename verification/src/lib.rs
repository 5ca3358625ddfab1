//! A two-dimensional lattice-Boltzmann fluid kernel, the palette that
//! colours its vorticity field, and the text that paints it on a terminal.

pub mod colours;
pub mod lattice;
pub mod simulation;
pub mod terminal;
