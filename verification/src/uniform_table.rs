//! The table of per-pass parameters: one record per pass, each holding the
//! step of that pass, spaced so that a pass selects its record by a byte
//! offset that the device accepts.

use vstd::prelude::*;
use vstd::arithmetic::power2::pow2;
use crate::dispatch::ceil_div;
use crate::error::ScanError;
use crate::layout::{native_layout, record_image_of, record_words, RECORD_BYTES};
use crate::utils::align_up;

verus! {

/// What a table holds, as plain mathematics.
pub struct UniformStepTableView {
    /// Distance in bytes between the starts of two consecutive records.
    pub stride: nat,
    /// Number of records.
    pub passes: nat,
    /// Step of the first record; every later record doubles it.
    pub first_step: nat,
    /// The bytes uploaded to the device.
    pub blob: Seq<u8>,
}

/// The step of pass `i` in a table that starts at `first_step`.
pub open spec fn step_of_pass(first_step: nat, i: nat) -> nat {
    first_step * pow2(i)
}

/// The stride that an alignment of `align` bytes gives to sixteen-byte records.
pub open spec fn stride_for(align: int) -> int {
    ceil_div(16, align) * align
}

impl UniformStepTableView {
    /// Record `i` holds the step of pass `i` followed by zero words, and the
    /// gap up to the next record is zero.
    pub open spec fn record_ok(self, i: int) -> bool {
        &&& native_layout(
            record_words(step_of_pass(self.first_step, i as nat) as u32),
            self.blob.subrange(i * self.stride, i * self.stride + 16),
        )
        &&& forall|j: int|
            i * self.stride + 16 <= j < (i + 1) * self.stride ==> #[trigger] self.blob[j] == 0
    }

    /// The table is laid out as the kernels expect.
    pub open spec fn wf(self) -> bool {
        &&& self.stride >= 16
        &&& self.blob.len() == self.passes * self.stride
        &&& self.passes * self.stride <= u32::MAX
        &&& self.passes > 0 ==> step_of_pass(self.first_step, (self.passes - 1) as nat)
            <= u32::MAX
        &&& forall|i: int| 0 <= i < self.passes ==> #[trigger] self.record_ok(i)
    }
}

/// An immutable table of step records, built once per context.
pub struct UniformStepTable {
    stride: u32,
    passes: u32,
    first_step: u32,
    blob: Vec<u8>,
}

impl View for UniformStepTable {
    type V = UniformStepTableView;

    closed spec fn view(&self) -> UniformStepTableView {
        UniformStepTableView {
            stride: self.stride as nat,
            passes: self.passes as nat,
            first_step: self.first_step as nat,
            blob: self.blob@,
        }
    }
}

/// Offsets of records: record `r` ends before record `i` starts when `r < i`.
proof fn lemma_record_bounds(r: int, i: int, stride: int)
    requires
        0 <= r < i,
        stride >= 16,
    ensures
        0 <= r * stride,
        r * stride + 16 <= (r + 1) * stride,
        (r + 1) * stride <= i * stride,
        (r + 1) * stride == r * stride + stride,
{
    assert(0 <= r * stride) by (nonlinear_arith)
        requires 0 <= r, stride >= 16;
    assert((r + 1) * stride == r * stride + stride) by (nonlinear_arith);
    assert((r + 1) * stride <= i * stride) by (nonlinear_arith)
        requires r + 1 <= i, stride >= 16;
}

/// Steps grow with the pass index.
proof fn lemma_step_monotone(first_step: nat, i: nat, j: nat)
    requires
        i <= j,
    ensures
        step_of_pass(first_step, i) <= step_of_pass(first_step, j),
        step_of_pass(first_step, i + 1) == 2 * step_of_pass(first_step, i),
{
    if i < j {
        vstd::arithmetic::power2::lemma_pow2_strictly_increases(i, j);
    }
    assert(first_step * pow2(i) <= first_step * pow2(j)) by (nonlinear_arith)
        requires pow2(i) <= pow2(j);
    vstd::arithmetic::power2::lemma_pow2_unfold(i + 1);
    assert(first_step * (2 * pow2(i)) == 2 * (first_step * pow2(i))) by (nonlinear_arith);
}

/// A buffer of `len` zero bytes.
fn zero_bytes(len: usize) -> (v: Vec<u8>)
    ensures
        v@.len() == len,
        forall|i: int| 0 <= i < len ==> v@[i] == 0,
{
    let mut v: Vec<u8> = Vec::new();
    let mut i: usize = 0;
    while i < len
        invariant
            0 <= i <= len,
            v@.len() == i,
            forall|j: int| 0 <= j < i ==> v@[j] == 0,
        decreases len - i,
    {
        v.push(0u8);
        i += 1;
    }
    v
}

impl UniformStepTable {
    /// Inputs for which a table can be built: a positive alignment that leaves
    /// room for one record in the address space, offsets that fit the 32-bit
    /// dynamic offset, and steps that fit a word.
    pub open spec fn buildable(first_step: u32, passes: u32, align: u32) -> bool {
        &&& align >= 1
        &&& 16 + align <= usize::MAX
        &&& passes * stride_for(align as int) <= u32::MAX
        &&& passes > 0 ==> step_of_pass(first_step as nat, (passes - 1) as nat) <= u32::MAX
    }

    /// Builds the table for `passes` passes whose steps start at `first_step`
    /// and double, with records spaced at the least multiple of `align` that
    /// holds one record.
    pub fn build(first_step: u32, passes: u32, align: u32) -> (r: Result<UniformStepTable, ScanError>)
        ensures
            Self::buildable(first_step, passes, align) ==> r.is_ok(),
            !Self::buildable(first_step, passes, align) ==> r is Err && r->Err_0
                == ScanError::ConfigurationError,
            r matches Ok(table) ==> {
                &&& table@.wf()
                &&& table@.stride == stride_for(align as int)
                &&& table@.passes == passes
                &&& table@.first_step == first_step
            },
    {
        if align == 0 || align as usize > usize::MAX - RECORD_BYTES {
            return Err(ScanError::ConfigurationError);
        }
        let stride_wide: usize = align_up(RECORD_BYTES, align as usize);
        proof {
            crate::dispatch::lemma_ceil_div(16, align as int);
            assert(1 * align == align) by (nonlinear_arith);
        }
        let stride: u32 = stride_wide as u32;
        proof {
            assert(passes * stride <= 0xffff_ffff * 0xffff_ffff) by (nonlinear_arith)
                requires 0 <= passes <= 0xffff_ffff, 0 <= stride <= 0xffff_ffff;
        }
        if (passes as u64) * (stride as u64) > u32::MAX as u64 {
            return Err(ScanError::ConfigurationError);
        }
        if passes == 0 {
            proof {
                assert(0 * stride == 0) by (nonlinear_arith);
            }
            return Ok(UniformStepTable { stride, passes: 0, first_step, blob: Vec::new() });
        }
        let pad = zero_bytes(stride as usize - RECORD_BYTES);
        let mut blob: Vec<u8> = Vec::new();
        let mut step: u32 = first_step;
        let mut i: u32 = 0;
        proof {
            vstd::arithmetic::power2::lemma2_to64();
            assert(first_step * 1 == first_step) by (nonlinear_arith);
            assert(0 * stride == 0) by (nonlinear_arith);
        }
        while i < passes
            invariant
                0 <= i <= passes,
                passes > 0,
                stride >= 16,
                stride == stride_for(align as int),
                align >= 1,
                passes * stride <= u32::MAX,
                pad@.len() == stride - 16,
                forall|j: int| 0 <= j < pad@.len() ==> pad@[j] == 0,
                blob@.len() == i * stride,
                i < passes ==> step == step_of_pass(first_step as nat, i as nat),
                i > 0 ==> step_of_pass(first_step as nat, (i - 1) as nat) <= u32::MAX,
                forall|r: int|
                    0 <= r < i ==> #[trigger] (UniformStepTableView {
                        stride: stride as nat,
                        passes: passes as nat,
                        first_step: first_step as nat,
                        blob: blob@,
                    }).record_ok(r),
            decreases passes - i,
        {
            let record: [u32; 4] = [step, 0, 0, 0];
            let image = record_image_of(&record);
            let ghost before = blob@;
            blob.extend_from_slice(image.as_slice());
            blob.extend_from_slice(pad.as_slice());
            proof {
                let old_view = UniformStepTableView {
                    stride: stride as nat,
                    passes: passes as nat,
                    first_step: first_step as nat,
                    blob: before,
                };
                let new_view = UniformStepTableView {
                    stride: stride as nat,
                    passes: passes as nat,
                    first_step: first_step as nat,
                    blob: blob@,
                };
                assert((i + 1) * stride == i * stride + stride) by (nonlinear_arith);
                assert forall|r: int| 0 <= r < i + 1 implies #[trigger] new_view.record_ok(r) by {
                    if r < i {
                        lemma_record_bounds(r, i as int, stride as int);
                        assert(old_view.record_ok(r));
                        assert(blob@.subrange(r * stride, r * stride + 16) =~= before.subrange(
                            r * stride,
                            r * stride + 16,
                        ));
                        assert forall|j: int|
                            r * stride + 16 <= j < (r + 1) * stride implies #[trigger] blob@[j]
                            == 0 by {
                            assert(before[j] == 0);
                        }
                    } else {
                        assert(blob@.subrange(i * stride, i * stride + 16) =~= image@);
                        assert forall|j: int|
                            i * stride + 16 <= j < (i + 1) * stride implies #[trigger] blob@[j]
                            == 0 by {
                            assert(blob@[j] == pad@[j - i * stride - 16]);
                        }
                    }
                }
            }
            i += 1;
            if i < passes {
                if step > u32::MAX / 2 {
                    proof {
                        lemma_step_monotone(first_step as nat, (i - 1) as nat, (i - 1) as nat);
                        lemma_step_monotone(first_step as nat, i as nat, (passes - 1) as nat);
                    }
                    return Err(ScanError::ConfigurationError);
                }
                proof {
                    lemma_step_monotone(first_step as nat, (i - 1) as nat, (i - 1) as nat);
                }
                step = step * 2;
            }
        }
        let table = UniformStepTable { stride, passes, first_step, blob };
        proof {
            assert(table@ == UniformStepTableView {
                stride: stride as nat,
                passes: passes as nat,
                first_step: first_step as nat,
                blob: table.blob@,
            });
        }
        Ok(table)
    }

    /// Distance in bytes between consecutive records.
    pub fn stride(&self) -> (s: u32)
        ensures
            s == self@.stride,
    {
        self.stride
    }

    /// Number of records.
    pub fn passes(&self) -> (p: u32)
        ensures
            p == self@.passes,
    {
        self.passes
    }

    /// The bytes to upload as the uniform buffer.
    pub fn as_bytes(&self) -> (b: &[u8])
        ensures
            b@ == self@.blob,
    {
        self.blob.as_slice()
    }

    /// The dynamic offset that selects the record of pass `i`.
    pub fn offset_bytes(&self, i: u32) -> (off: u32)
        requires
            self@.wf(),
            i < self@.passes,
        ensures
            off == i * self@.stride,
            off + 16 <= self@.blob.len(),
    {
        proof {
            lemma_record_bounds(i as int, self.passes as int, self.stride as int);
            assert(i * self.stride <= self.passes * self.stride) by (nonlinear_arith)
                requires i < self.passes, self.stride >= 0;
        }
        i * self.stride
    }
}

} // verus!
