//! A falling-sand cellular automaton: a rectangular grid of grains that fall
//! under a simple gravity rule, pile up, and slide diagonally when blocked.
pub mod chance;
pub mod grain;
pub mod grid;
pub mod shape;
pub mod update;
