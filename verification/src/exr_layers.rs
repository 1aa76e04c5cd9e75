//! Layers of an image prepared for export to layered formats.
use vstd::prelude::*;

verus! {

/// One layer with 16-bit colour planes and an optional alpha plane.
pub struct PsdLayer {
    pub name: String,
    pub width: u32,
    pub height: u32,
    pub r: Vec<u16>,
    pub g: Vec<u16>,
    pub b: Vec<u16>,
    pub a: Option<Vec<u16>>,
}

/// Why the layers could not be produced.
#[derive(Debug, Clone, Copy, PartialEq, Eq, Structural)]
pub enum ExrLayersError {
    /// Mapping an image onto layers is not implemented.
    NotImplemented,
}

/// The layers of the image at `_path`, and its composite. Mapping is not
/// implemented: every call fails with `NotImplemented`.
pub fn read_layers(_path: &str) -> (r: Result<(Vec<PsdLayer>, PsdLayer), ExrLayersError>)
    ensures
        r matches Err(e) && e == ExrLayersError::NotImplemented,
{
    Err(ExrLayersError::NotImplemented)
}

} // verus!
