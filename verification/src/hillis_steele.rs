//! Step-efficient scan (Hillis–Steele): `ceil(log2(n))` passes over two
//! buffers that alternate as source and destination; the result is the
//! inclusive scan.

use vstd::prelude::*;
use vstd::arithmetic::power2::pow2;
use crate::dispatch::{
    dispatch_fits, dispatch_x, dispatch_y, dispatch_z, split_dispatch_3d, try_split_dispatch_3d,
    workgroups_for, workgroups_needed,
};
use crate::error::ScanError;
use crate::plan::{invocations, DeviceLimits, ScanPass};
use crate::layout::{
    ceil_log2, decode_words, encode_words, is_ceil_log2, log2_ceil, native_layout,
};
use crate::scan_model::{
    inclusive_scan, lemma_sum_split, lemma_wadd_is_wrapping, lemma_wrap_add, lemma_wrap_word,
    sum_range, wadd, wrap,
};
use crate::uniform_table::{UniformStepTable, UniformStepTableView};

verus! {

/// One pass over the whole array: every position at or above `step` takes the
/// sum of its source element and the one `step` below; the others copy.
pub open spec fn hs_step(src: Seq<u32>, step: int) -> Seq<u32> {
    Seq::new(src.len(), |p: int| if p >= step { wadd(src[p], src[p - step]) } else { src[p] })
}

/// One pass as a dispatch of `covered` invocations performs it: positions
/// that no invocation reaches keep what the destination held.
pub open spec fn hs_dispatch(src: Seq<u32>, dst: Seq<u32>, step: int, covered: int) -> Seq<u32> {
    Seq::new(
        dst.len(),
        |p: int|
            if p < covered && p < src.len() {
                hs_step(src, step)[p]
            } else {
                dst[p]
            },
    )
}

/// The array after the first `k` passes, whose steps are 1, 2, 4, ...
pub open spec fn hs_after(s: Seq<u32>, k: nat) -> Seq<u32>
    decreases k,
{
    if k == 0 {
        s
    } else {
        hs_step(hs_after(s, (k - 1) as nat), pow2((k - 1) as nat) as int)
    }
}

/// First index of the window that position `p` has summed after `k` passes.
pub open spec fn window_start(p: int, k: nat) -> int {
    if p + 1 - pow2(k) >= 0 { p + 1 - pow2(k) } else { 0 }
}

/// After `k` passes every position holds the sum of the `2^k` elements that
/// end at it, or of all elements up to it where fewer precede it.
pub proof fn lemma_hs_window(s: Seq<u32>, k: nat, p: int)
    requires
        0 <= p < s.len(),
    ensures
        hs_after(s, k).len() == s.len(),
        hs_after(s, k)[p] == wrap(sum_range(s, window_start(p, k), p + 1)),
    decreases k,
{
    vstd::arithmetic::power2::lemma2_to64();
    if k == 0 {
        assert(sum_range(s, p, p + 1) == s[p]) by {
            assert(sum_range(s, p, p) == 0);
        }
        lemma_wrap_word(s[p]);
    } else {
        let j = (k - 1) as nat;
        let step = pow2(j) as int;
        vstd::arithmetic::power2::lemma_pow2_unfold(k);
        vstd::arithmetic::power2::lemma_pow2_pos(j);
        lemma_hs_window(s, j, p);
        if p >= step {
            lemma_hs_window(s, j, p - step);
            let lo = window_start(p, k);
            lemma_sum_split(s, lo, p + 1 - step, p + 1);
            lemma_wrap_add(sum_range(s, p + 1 - step, p + 1), sum_range(s, lo, p + 1 - step));
        }
    }
}

/// Once the passes cover the array, it holds the inclusive scan of the input.
pub proof fn lemma_hs_scan(s: Seq<u32>, k: nat)
    requires
        pow2(k) >= s.len(),
    ensures
        hs_after(s, k) == inclusive_scan(s),
{
    assert forall|p: int| 0 <= p < s.len() implies hs_after(s, k)[p] == inclusive_scan(s)[p] by {
        lemma_hs_window(s, k, p);
    }
    if s.len() > 0 {
        lemma_hs_window(s, k, 0);
    } else {
        lemma_hs_len(s, k);
    }
}

/// Passes keep the length of the array.
pub proof fn lemma_hs_len(s: Seq<u32>, k: nat)
    ensures
        hs_after(s, k).len() == s.len(),
    decreases k,
{
    if k > 0 {
        lemma_hs_len(s, (k - 1) as nat);
    }
}

/// Performs one pass on host memory: reads `src`, writes the first `covered`
/// positions of `dst`.
pub fn hillis_steele_pass(src: &Vec<u32>, dst: &mut Vec<u32>, step: u32, covered: u128)
    requires
        src@.len() == old(dst)@.len(),
    ensures
        final(dst)@ == hs_dispatch(src@, old(dst)@, step as int, covered as int),
{
    let n = src.len();
    let mut p: usize = 0;
    while p < n
        invariant
            n == src@.len(),
            dst@.len() == n,
            old(dst)@.len() == n,
            0 <= p <= n,
            forall|q: int|
                0 <= q < p ==> dst@[q] == hs_dispatch(src@, old(dst)@, step as int, covered as int)[q],
            forall|q: int| p <= q < n ==> dst@[q] == old(dst)@[q],
        decreases n - p,
    {
        if (p as u128) < covered {
            let v: u32 = if p >= step as usize {
                proof {
                    lemma_wadd_is_wrapping(src@[p as int], src@[p - step]);
                }
                src[p].wrapping_add(src[p - step as usize])
            } else {
                src[p]
            };
            dst.set(p, v);
        }
        p += 1;
    }
}

/// What a step-efficient context holds, as plain mathematics.
pub struct GpuContextView {
    /// Number of elements.
    pub n: nat,
    /// Number of passes.
    pub max_steps: nat,
    /// Device bound on each dispatch dimension.
    pub max_dim: nat,
    /// The per-pass parameter table.
    pub table: UniformStepTableView,
}

impl GpuContextView {
    /// The context was planned for its size and device.
    pub open spec fn wf(self) -> bool {
        &&& self.n <= u32::MAX
        &&& self.max_steps == log2_ceil(self.n as int)
        &&& is_ceil_log2(self.n as int, self.max_steps)
        &&& self.table.wf()
        &&& self.table.passes == self.max_steps
        &&& self.table.first_step == 1
        &&& dispatch_fits(workgroups_for(self.n as int), self.max_dim as int)
    }

    /// Pass `i` of the scan: step `2^i`, wiring by the parity of `i`, the
    /// `i`-th record, and a grid that covers all elements.
    pub open spec fn is_pass(self, i: int, pass: ScanPass) -> bool {
        let w = workgroups_for(self.n as int);
        &&& pass.step == pow2(i as nat)
        &&& pass.bind_group == i % 2
        &&& pass.offset_bytes == i * self.table.stride
        &&& pass.shape[0] == dispatch_x(w, self.max_dim as int)
        &&& pass.shape[1] == dispatch_y(w, self.max_dim as int)
        &&& pass.shape[2] == dispatch_z(w, self.max_dim as int)
        &&& pass.shape[0] * pass.shape[1] * pass.shape[2] * 64 >= self.n
    }
}

/// Host side of the step-efficient scan of `n` elements.
pub struct GpuContext {
    n: usize,
    max_steps: u32,
    max_dim: u32,
    table: UniformStepTable,
}

impl View for GpuContext {
    type V = GpuContextView;

    closed spec fn view(&self) -> GpuContextView {
        GpuContextView {
            n: self.n as nat,
            max_steps: self.max_steps as nat,
            max_dim: self.max_dim as nat,
            table: self.table@,
        }
    }
}

/// The passes of `ceil_log2` never exceed 32 for an array indexed by words.
pub proof fn lemma_steps_bounded(n: int, k: nat)
    requires
        0 <= n <= u32::MAX,
        is_ceil_log2(n, k),
    ensures
        k <= 32,
        k > 0 ==> pow2((k - 1) as nat) <= 0x8000_0000,
{
    vstd::arithmetic::power2::lemma2_to64();
    if k > 32 {
        if k > 33 {
            vstd::arithmetic::power2::lemma_pow2_strictly_increases(32, (k - 1) as nat);
        }
        assert(false);
    }
    if k > 0 && k < 32 {
        vstd::arithmetic::power2::lemma_pow2_strictly_increases((k - 1) as nat, 31);
    }
}

impl GpuContext {
    /// Sizes and limits for which the scan can be planned: indices fit a
    /// word, the dispatch fits the device, and the table can be built.
    pub open spec fn plannable(n: usize, limits: DeviceLimits) -> bool {
        &&& n <= u32::MAX
        &&& dispatch_fits(
            workgroups_for(n as int),
            limits.max_compute_workgroups_per_dimension as int,
        )
        &&& UniformStepTable::buildable(
            1,
            log2_ceil(n as int) as u32,
            limits.min_uniform_buffer_offset_alignment,
        )
    }

    /// Plans the scan of `n` elements on a device with the given limits.
    pub fn new(n: usize, limits: DeviceLimits) -> (r: Result<GpuContext, ScanError>)
        ensures
            Self::plannable(n, limits) ==> r.is_ok(),
            !Self::plannable(n, limits) ==> r is Err && r->Err_0 == ScanError::ConfigurationError,
            r matches Ok(ctx) ==> {
                &&& ctx@.wf()
                &&& ctx@.n == n
                &&& ctx@.max_dim == limits.max_compute_workgroups_per_dimension
                &&& ctx@.table.stride == crate::uniform_table::stride_for(
                    limits.min_uniform_buffer_offset_alignment as int,
                )
            },
    {
        let max_steps = ceil_log2(n);
        if n > u32::MAX as usize {
            return Err(ScanError::ConfigurationError);
        }
        let max_dim = limits.max_compute_workgroups_per_dimension;
        let w = workgroups_needed(n as u32);
        if try_split_dispatch_3d(w, max_dim).is_err() {
            return Err(ScanError::ConfigurationError);
        }
        match UniformStepTable::build(1, max_steps, limits.min_uniform_buffer_offset_alignment) {
            Ok(table) => {
                let ctx = GpuContext { n, max_steps, max_dim, table };
                Ok(ctx)
            },
            Err(_) => Err(ScanError::ConfigurationError),
        }
    }

    /// Number of elements.
    pub fn len(&self) -> (n: usize)
        ensures
            n == self@.n,
    {
        self.n
    }

    /// Number of passes: `ceil(log2(n))`.
    pub fn max_steps(&self) -> (k: u32)
        ensures
            k == self@.max_steps,
    {
        self.max_steps
    }

    /// Size in bytes of each data buffer and of the staging buffer.
    pub fn byte_len(&self) -> (b: u64)
        requires
            self@.wf(),
        ensures
            b == 4 * self@.n,
    {
        (self.n as u64) * 4
    }

    /// The per-pass parameter table to upload once.
    pub fn uniform_table(&self) -> (t: &UniformStepTable)
        ensures
            t@ == self@.table,
    {
        &self.table
    }

    /// The bytes to write at the start of buffer 0.
    pub fn upload_data(&self, input: &[u32]) -> (bytes: Vec<u8>)
        ensures
            native_layout(input@, bytes@),
    {
        encode_words(input)
    }

    /// The passes of the scan, in submission order.
    pub fn run_prefix_scan(&self) -> (passes: Vec<ScanPass>)
        requires
            self@.wf(),
        ensures
            passes@.len() == self@.max_steps,
            forall|i: int| 0 <= i < passes@.len() ==> self@.is_pass(i, #[trigger] passes@[i]),
    {
        let w = workgroups_needed(self.n as u32);
        let shape = split_dispatch_3d(w, self.max_dim);
        let mut passes: Vec<ScanPass> = Vec::new();
        let mut step: u32 = 1;
        let mut i: u32 = 0;
        proof {
            vstd::arithmetic::power2::lemma2_to64();
            lemma_steps_bounded(self.n as int, self.max_steps as nat);
            assert(shape[0] * shape[1] * shape[2] * 64 >= self.n) by (nonlinear_arith)
                requires
                    shape[0] * shape[1] * shape[2] >= w,
                    w * 64 >= self.n,
            ;
        }
        while i < self.max_steps
            invariant
                self@.wf(),
                0 <= i <= self.max_steps <= 32,
                self.max_steps > 0 ==> pow2((self.max_steps - 1) as nat) <= 0x8000_0000,
                i < self.max_steps ==> step == pow2(i as nat),
                passes@.len() == i,
                shape[0] == dispatch_x(w as int, self.max_dim as int),
                shape[1] == dispatch_y(w as int, self.max_dim as int),
                shape[2] == dispatch_z(w as int, self.max_dim as int),
                w == workgroups_for(self.n as int),
                shape[0] * shape[1] * shape[2] * 64 >= self.n,
                forall|j: int| 0 <= j < i ==> self@.is_pass(j, #[trigger] passes@[j]),
            decreases self.max_steps - i,
        {
            let offset_bytes = self.table.offset_bytes(i);
            passes.push(ScanPass { step, bind_group: i % 2, offset_bytes, shape });
            i += 1;
            if i < self.max_steps {
                proof {
                    vstd::arithmetic::power2::lemma_pow2_unfold(i as nat);
                    if i < self.max_steps - 1 {
                        vstd::arithmetic::power2::lemma_pow2_strictly_increases(
                            i as nat,
                            (self.max_steps - 1) as nat,
                        );
                    }
                }
                step = step * 2;
            }
        }
        passes
    }

    /// Index of the buffer that holds the result after the last pass: the
    /// one the last pass wrote, or buffer 0 where there is no pass.
    pub fn result_buffer(&self) -> (b: u32)
        ensures
            b == self@.max_steps % 2,
    {
        if self.max_steps == 0 {
            0
        } else if (self.max_steps - 1) % 2 == 0 {
            1
        } else {
            0
        }
    }

    /// The scanned elements held by the mapped staging range, which must be
    /// as long as the data buffer.
    pub fn read_computed_data(&self, mapped: &[u8]) -> (r: Result<Vec<u32>, ScanError>)
        ensures
            mapped@.len() == 4 * self@.n ==> r.is_ok(),
            mapped@.len() != 4 * self@.n ==> r is Err && r->Err_0 == ScanError::MappingFailure,
            r matches Ok(words) ==> words@.len() == self@.n && native_layout(words@, mapped@),
    {
        if mapped.len() % 4 != 0 || mapped.len() / 4 != self.n {
            return Err(ScanError::MappingFailure);
        }
        decode_words(mapped)
    }

    /// Runs the planned passes on host memory, as the device runs them on its
    /// two buffers, and returns the buffer that `result_buffer` designates:
    /// the inclusive scan of `input`.
    pub fn run_on_host(&self, input: &[u32]) -> (out: Vec<u32>)
        requires
            self@.wf(),
            input@.len() == self@.n,
        ensures
            out@ == inclusive_scan(input@),
    {
        let passes = self.run_prefix_scan();
        let mut buffer0: Vec<u32> = crate::layout::copy_words(input);
        let mut buffer1: Vec<u32> = crate::layout::zero_words(input.len());
        let mut i: usize = 0;
        while i < passes.len()
            invariant
                self@.wf(),
                input@.len() == self@.n,
                passes@.len() == self@.max_steps,
                forall|j: int| 0 <= j < passes@.len() ==> self@.is_pass(j, #[trigger] passes@[j]),
                0 <= i <= passes@.len(),
                buffer0@.len() == input@.len(),
                buffer1@.len() == input@.len(),
                i % 2 == 0 ==> buffer0@ == hs_after(input@, i as nat),
                i % 2 == 1 ==> buffer1@ == hs_after(input@, i as nat),
            decreases passes@.len() - i,
        {
            let pass = passes[i];
            let covered = invocations(&pass.shape);
            proof {
                assert(self@.is_pass(i as int, pass));
                lemma_hs_len(input@, i as nat);
            }
            if pass.bind_group == 0 {
                hillis_steele_pass(&buffer0, &mut buffer1, pass.step, covered);
            } else {
                hillis_steele_pass(&buffer1, &mut buffer0, pass.step, covered);
            }
            i += 1;
        }
        proof {
            lemma_hs_scan(input@, self.max_steps as nat);
        }
        if self.result_buffer() == 0 {
            buffer0
        } else {
            buffer1
        }
    }
}

} // verus!
