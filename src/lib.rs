//! Status-bar segments: the state of the default audio sink, read from the
//! sound server's text reports, and the banding of CPU and memory figures.

use vstd::prelude::*;

pub mod memory;
pub mod parser;
pub mod sink;
pub mod status;
pub mod text;
pub mod threshold;

verus! {

} // verus!
