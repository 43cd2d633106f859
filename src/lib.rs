//! An 8-bit computer with three 256-byte memories: a catalog of 26
//! instructions, a two-pass assembler from text to a program image, and an
//! interpreter that runs the image until it flushes a frame.
use vstd::prelude::*;

pub mod instructions;
pub mod text;
pub mod vm;
pub mod assembly;
