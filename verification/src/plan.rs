//! What the host records for the device: the limits it plans against and
//! the passes it dispatches.

use vstd::prelude::*;

verus! {

/// What the host needs to know of a device to plan its dispatches.
#[derive(Clone, Copy, Debug)]
pub struct DeviceLimits {
    /// Largest workgroup count the device takes in one dimension of a dispatch.
    pub max_compute_workgroups_per_dimension: u32,
    /// Alignment, in bytes, that the device demands of a dynamic uniform offset.
    pub min_uniform_buffer_offset_alignment: u32,
}

/// One pass of a sweep, as the host records it.
#[derive(Clone, Copy, Debug)]
pub struct ScanPass {
    /// Distance between the two elements that the pass combines.
    pub step: u32,
    /// Which of the two wirings is bound: 0 reads buffer 0 and writes buffer
    /// 1; 1 reads buffer 1 and writes buffer 0.
    pub bind_group: u32,
    /// Dynamic offset of the pass's record in the uniform table.
    pub offset_bytes: u32,
    /// Workgroup counts of the dispatch.
    pub shape: [u32; 3],
}

/// Number of invocations that a dispatch of `shape` starts.
pub open spec fn invocations_of(shape: [u32; 3]) -> int {
    shape[0] * shape[1] * shape[2] * 64
}

/// Computes `invocations_of`.
pub fn invocations(shape: &[u32; 3]) -> (c: u128)
    ensures
        c == invocations_of(*shape),
{
    let x: u128 = shape[0] as u128;
    let y: u128 = shape[1] as u128;
    let z: u128 = shape[2] as u128;
    proof {
        assert(x * y <= 0xffff_ffff * 0xffff_ffff) by (nonlinear_arith)
            requires 0 <= x <= 0xffff_ffff, 0 <= y <= 0xffff_ffff;
        assert(x * y * z <= 0xffff_ffff * 0xffff_ffff * 0xffff_ffff) by (nonlinear_arith)
            requires 0 <= x * y <= 0xffff_ffff * 0xffff_ffff, 0 <= z <= 0xffff_ffff;
    }
    x * y * z * 64
}

} // verus!
