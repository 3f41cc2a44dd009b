//! Error vocabulary of the firmware: failures of the camera module's
//! control interface, and runtime failures of the radio bring-up.

use vstd::prelude::*;

verus! {

/// Errors from operating the camera module over its control buses.
#[derive(Debug)]
pub enum OV2640Error<I2CErr> {
    /// Image size can only be set in JPEG mode.
    CannotSetImageSizeOnNonJPEG,
    /// The supplied buffer is too small.
    InvalidBufferSize,
    NoI2cPeripheral,
    I2CError(I2CErr),
    NoSpiPeripheral,
}

/// Failures while bringing up the radio stack. The driver's own error
/// values carry no information the session logic reads, so only the source
/// is recorded.
#[derive(Clone, Copy, PartialEq, Eq, Structural, Debug)]
pub enum RuntimeError {
    Unspecified,
    WifiError,
    InitializationError,
}

} // verus!
