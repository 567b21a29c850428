//! Builds macOS Dynamic Desktop wallpapers: the manifest model, the
//! Dynamic Desktop metadata payloads and their XMP packet, and the checks and
//! pixel layout work that precede HEIF encoding.
use vstd::prelude::*;

pub mod cli;
pub mod img;
pub mod input;
pub mod laws;
pub mod metadata;
pub mod text;

pub use input::{CommonInput, Input, SolarInput, TimeInput};

verus! {

} // verus!
