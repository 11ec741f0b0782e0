use vstd::prelude::*;

verus! {

/// Why a configuration or a reservation was refused.
#[derive(Debug, Clone, Copy, PartialEq, Eq, Structural)]
pub enum AllocError {
    /// A pool's options break the device's limits or their own rules.
    InvalidConfiguration,
    /// The request is larger than the ceiling of the pool that was asked.
    SliceTooLarge,
    /// The device could not provide a new chunk.
    OutOfDeviceMemory,
    /// The alignment that was asked for cannot be met.
    MisalignedRequest,
}

} // verus!
