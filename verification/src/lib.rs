//! A strength-training progression planner.
//!
//! The core of the library is a plate-inventory resolution engine: given the
//! plates a lifter owns, it computes every total barbell weight that can be
//! loaded and, for each, a loadout using as few plates as possible.  Around
//! that core sit the quantized ordering key that makes noisy weights usable
//! as map keys, the rounding rules used when deriving weekly target weights
//! from a one-rep max, and the plain data types of the rendered plan.
//!
//! All weights are carried as integer tenths of a unit, the same resolution
//! the ordering key quantizes to.

pub mod engine;
pub mod index;
pub mod keys;
pub mod plates;
pub mod render;
pub mod rounding;
pub mod schedule;
pub mod text;
