//! The GPU context of builds without a GPU backend.
use vstd::prelude::*;

verus! {

/// A device to compute on. No backend is built in, so none can be opened.
#[derive(Debug, Clone, Copy)]
pub struct GpuContext {
    device_id: i32,
}

impl GpuContext {
    /// The number of the device.
    pub closed spec fn device(self) -> i32 {
        self.device_id
    }

    /// Opens a device: always refused.
    pub fn new(_device_id: i32) -> (r: Result<GpuContext, String>)
        ensures
            r is Err,
            r->Err_0@ == "GPU support not compiled (enable `gpu` feature)"@,
    {
        Err("GPU support not compiled (enable `gpu` feature)".to_owned())
    }

    /// The number of the device.
    pub fn device_id(&self) -> (r: i32)
        ensures
            r == self.device(),
    {
        self.device_id
    }
}

} // verus!
