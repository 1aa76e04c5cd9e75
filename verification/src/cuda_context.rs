//! CUDA context bookkeeping.
use vstd::prelude::*;
use crate::text::owned;

verus! {

/// A CUDA context on one device.
pub struct CudaContext {
    device_id: i32,
    context_initialized: bool,
}

/// Why a CUDA context could not be created.
#[derive(Debug, Clone, Copy, PartialEq, Eq, Structural)]
pub enum CudaError {
    /// No CUDA device was found.
    NoDevices,
}

/// Description of a CUDA device.
#[derive(Debug)]
pub struct CudaDeviceInfo {
    pub name: String,
    pub compute_capability: (i32, i32),
    pub memory_mb: u64,
}

impl Clone for CudaDeviceInfo {
    fn clone(&self) -> (r: Self)
        ensures
            r.name@ == self.name@,
            r.compute_capability == self.compute_capability,
            r.memory_mb == self.memory_mb,
    {
        CudaDeviceInfo {
            name: self.name.clone(),
            compute_capability: (self.compute_capability.0, self.compute_capability.1),
            memory_mb: self.memory_mb,
        }
    }
}

impl CudaContext {
    /// Whether the context has been initialised.
    pub closed spec fn initialized(&self) -> bool {
        self.context_initialized
    }

    /// The device the context is bound to.
    pub closed spec fn device(&self) -> i32 {
        self.device_id
    }

    /// Number of CUDA devices; device enumeration is not available in this
    /// build, so none are reported.
    fn get_device_count() -> (r: i32)
        ensures
            r == 0,
    {
        0
    }

    /// A context on the first device, given how many devices there are:
    /// an error when there are none.
    pub fn with_device_count(device_count: i32) -> (r: Result<Self, CudaError>)
        ensures
            device_count == 0 <==> r is Err,
            r matches Err(e) ==> e == CudaError::NoDevices,
            r matches Ok(c) ==> c.device() == 0 && !c.initialized(),
    {
        if device_count == 0 {
            return Err(CudaError::NoDevices);
        }
        Ok(CudaContext { device_id: 0, context_initialized: false })
    }

    /// Creates a context; fails with `NoDevices` when no device is found,
    /// which is always the case in this build.
    pub fn new() -> (r: Result<Self, CudaError>)
        ensures
            r == Err::<Self, CudaError>(CudaError::NoDevices),
    {
        let count = Self::get_device_count();
        Self::with_device_count(count)
    }

    /// Description of the device (a placeholder description).
    pub fn get_device_info(&self) -> (r: CudaDeviceInfo)
        ensures
            r.name@ == "CUDA Device (placeholder)"@,
            r.compute_capability == (0i32, 0i32),
            r.memory_mb == 0,
    {
        CudaDeviceInfo {
            name: owned("CUDA Device (placeholder)"),
            compute_capability: (0, 0),
            memory_mb: 0,
        }
    }

    /// Whether the context is ready for use.
    pub fn is_available(&self) -> (r: bool)
        ensures
            r == self.initialized(),
    {
        self.context_initialized
    }
}

} // verus!
