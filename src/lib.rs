//! Sorting of flat arrays of 32-bit numbers by a parallel rank kernel.
pub mod adapter;
pub mod job;
pub mod kernel;
pub mod kind;
pub mod layout;
pub mod shader;
