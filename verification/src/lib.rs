//! Ammann-Beenker aperiodic tiling by recursive substitution.
//!
//! The library generates the tiling with exact arithmetic: every length,
//! coordinate and squared distance produced by the substitution rule lies in
//! the ring of numbers `(a + b*sqrt(2)) / 2^e` with integer `a`, `b` and a
//! power-of-two denominator, and every orientation is an integer count of
//! 45-degree turns.  The substitution rule, the vertex computation and the
//! recursive expansion are specified and verified over that representation.

pub mod num;
pub mod geom;
pub mod tile;
pub mod expand;
