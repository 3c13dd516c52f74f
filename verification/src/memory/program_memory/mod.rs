//! The memory areas of a program.

pub mod program_area;

pub use program_area::{Area, AreaType, ProgramArea};
