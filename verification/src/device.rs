//! Compute devices.

use vstd::prelude::*;

verus! {

/// Where the buffer of a tensor lives. A registry is bound to one device, and
/// so is every tensor it holds.
#[derive(Clone, Copy, Debug, PartialEq, Eq, Structural)]
pub enum Device {
    /// Host memory.
    Cpu,
    /// The accelerator with the given ordinal.
    Cuda(usize),
}

} // verus!
