//! Writing layers as a PSD document.
use vstd::prelude::*;
use crate::exr_layers::PsdLayer;

verus! {

/// Why a PSD document could not be written.
#[derive(Debug, Clone, Copy, PartialEq, Eq, Structural)]
pub enum PsdError {
    /// Writing PSD documents is not implemented.
    NotImplemented,
}

/// Writes the layers and the composite to `_out`. Writing is not
/// implemented: every call fails with `NotImplemented` and writes nothing.
pub fn write_psd<W: std::io::Write>(_out: W, _layers: &[PsdLayer], _composite: &PsdLayer) -> (r:
    Result<(), PsdError>)
    ensures
        r matches Err(e) && e == PsdError::NotImplemented,
{
    Err(PsdError::NotImplemented)
}

} // verus!
