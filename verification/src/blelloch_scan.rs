//! Work-efficient scan (global Blelloch): an up-sweep that builds a binary
//! tree of partial sums in place, a pass that clears the root, and a
//! down-sweep that distributes prefixes from the root to the leaves. The
//! result is the exclusive scan; the size must be a power of two.

use vstd::prelude::*;
use vstd::arithmetic::power2::pow2;
use crate::dispatch::{
    dispatch_fits, dispatch_x, dispatch_y, dispatch_z, lemma_dispatch_shape,
    split_dispatch_3d, try_split_dispatch_3d, workgroups_for, workgroups_needed,
};
use crate::error::ScanError;
use crate::layout::{
    ceil_log2_power, copy_words, decode_words, encode_words, log2_ceil,
    native_layout,
};
use crate::plan::{DeviceLimits, ScanPass};
use crate::scan_model::{
    exclusive_scan, lemma_sum_split, lemma_wadd_is_wrapping, lemma_wrap_add, lemma_wrap_word,
    sum_range, wadd, wrap,
};
use crate::uniform_table::{step_of_pass, UniformStepTable, UniformStepTableView};

verus! {

/// Position `p` closes a block of `step` elements: it is the last of them.
pub open spec fn is_node(p: int, step: int) -> bool {
    (p + 1) % step == 0
}

/// One up-sweep pass: every position that closes a block of `step` elements
/// adds the value that closes the first half of the block.
pub open spec fn up_step(buf: Seq<u32>, step: int) -> Seq<u32> {
    Seq::new(
        buf.len(),
        |p: int|
            if is_node(p, step) && p - step / 2 >= 0 {
                wadd(buf[p], buf[p - step / 2])
            } else {
                buf[p]
            },
    )
}

/// The pass between the sweeps: the last element becomes zero.
pub open spec fn set_last_zero(buf: Seq<u32>) -> Seq<u32> {
    if buf.len() == 0 {
        buf
    } else {
        buf.update(buf.len() - 1, 0u32)
    }
}

/// One down-sweep pass: in every block of `step` elements the value that
/// closes the block moves to the close of the first half, and the close of
/// the block takes the sum of both.
pub open spec fn down_step(buf: Seq<u32>, step: int) -> Seq<u32> {
    Seq::new(
        buf.len(),
        |p: int|
            if is_node(p, step) && p - step / 2 >= 0 {
                wadd(buf[p], buf[p - step / 2])
            } else if is_node(p + step / 2, step) && p + step / 2 < buf.len() {
                buf[p + step / 2]
            } else {
                buf[p]
            },
    )
}

/// The array after the first `k` up-sweep passes, whose steps are 2, 4, ...
pub open spec fn up_after(s: Seq<u32>, k: nat) -> Seq<u32>
    decreases k,
{
    if k == 0 {
        s
    } else {
        up_step(up_after(s, (k - 1) as nat), pow2(k) as int)
    }
}

/// The array `b` after the first `m` down-sweep passes of a sweep of `k`
/// passes, whose steps are `2^k`, `2^(k-1)`, ...
pub open spec fn down_from(b: Seq<u32>, k: nat, m: nat) -> Seq<u32>
    decreases m,
{
    if m == 0 || m > k {
        b
    } else {
        down_step(down_from(b, k, (m - 1) as nat), pow2((k - m + 1) as nat) as int)
    }
}

/// The array after the whole scan of `k` passes in each direction.
pub open spec fn blelloch_result(s: Seq<u32>, k: nat) -> Seq<u32> {
    down_from(set_last_zero(up_after(s, k)), k, k)
}

/// Width of the block whose sum position `p` holds after `k` up-sweep
/// passes: the largest power of two up to `2^k` that divides `p + 1`.
pub open spec fn up_width(p: int, k: nat) -> int
    decreases k,
{
    if k == 0 {
        1
    } else if (p + 1) % (pow2(k) as int) == 0 {
        pow2(k) as int
    } else {
        up_width(p, (k - 1) as nat)
    }
}

/// Multiples of `2 h` and their neighbours at distance `h`.
pub proof fn lemma_half_step(x: int, h: int)
    requires
        h >= 1,
    ensures
        x % (2 * h) == 0 ==> x % h == 0 && (x - h) % h == 0 && (x - h) % (2 * h) == h && (x + h) % (
        2 * h) == h,
        x % h == 0 ==> x % (2 * h) == 0 || (x + h) % (2 * h) == 0,
        x % (2 * h) == 0 && x >= 1 ==> x >= 2 * h,
{
    if x % (2 * h) == 0 {
        let q = x / (2 * h);
        vstd::arithmetic::div_mod::lemma_fundamental_div_mod(x, 2 * h);
        assert(x == h * (2 * q)) by (nonlinear_arith)
            requires x == (2 * h) * q;
        vstd::arithmetic::div_mod::lemma_mod_multiples_basic(2 * q, h);
        assert((2 * q) * h == h * (2 * q)) by (nonlinear_arith);
        assert(x - h == (2 * q - 1) * h) by (nonlinear_arith)
            requires x == h * (2 * q);
        vstd::arithmetic::div_mod::lemma_mod_multiples_basic(2 * q - 1, h);
        assert(x - h == (2 * h) * (q - 1) + h) by (nonlinear_arith)
            requires x == (2 * h) * q;
        vstd::arithmetic::div_mod::lemma_fundamental_div_mod_converse(x - h, 2 * h, q - 1, h);
        vstd::arithmetic::div_mod::lemma_fundamental_div_mod_converse(x + h, 2 * h, q, h);
        if x >= 1 && q <= 0 {
            assert((2 * h) * q <= 0) by (nonlinear_arith)
                requires q <= 0, h >= 1;
        }
        if x >= 1 {
            assert((2 * h) * q >= 2 * h) by (nonlinear_arith)
                requires q >= 1, h >= 1;
        }
    }
    if x % h == 0 {
        let c = x / h;
        vstd::arithmetic::div_mod::lemma_fundamental_div_mod(x, h);
        if c % 2 == 0 {
            let d = c / 2;
            assert(x == d * (2 * h)) by (nonlinear_arith)
                requires x == h * c, c == 2 * d;
            vstd::arithmetic::div_mod::lemma_mod_multiples_basic(d, 2 * h);
        } else {
            let d = c / 2;
            assert(x + h == (d + 1) * (2 * h)) by (nonlinear_arith)
                requires x == h * c, c == 2 * d + 1;
            vstd::arithmetic::div_mod::lemma_mod_multiples_basic(d + 1, 2 * h);
        }
    }
}

/// What a larger power of two divides, a smaller one divides.
pub proof fn lemma_pow2_divides(x: int, j: nat, k: nat)
    requires
        j <= k,
        x % (pow2(k) as int) == 0,
    ensures
        x % (pow2(j) as int) == 0,
    decreases k - j,
{
    if j < k {
        vstd::arithmetic::power2::lemma_pow2_unfold(k);
        vstd::arithmetic::power2::lemma_pow2_pos((k - 1) as nat);
        lemma_half_step(x, pow2((k - 1) as nat) as int);
        lemma_pow2_divides(x, j, (k - 1) as nat);
    }
}

/// A position that closes a block of `2^i` elements but not one of
/// `2^(i+1)` keeps a block of `2^i` however many passes follow.
pub proof fn lemma_width_stable(q: int, i: nat, k: nat)
    requires
        i <= k,
        (q + 1) % (pow2(i) as int) == 0,
        (q + 1) % (pow2(i + 1) as int) != 0,
    ensures
        up_width(q, k) == pow2(i),
    decreases k,
{
    vstd::arithmetic::power2::lemma2_to64();
    if k > i {
        if (q + 1) % (pow2(k) as int) == 0 {
            lemma_pow2_divides(q + 1, i + 1, k);
        }
        lemma_width_stable(q, i, (k - 1) as nat);
    }
}

/// After `k` up-sweep passes every position holds the sum of its block.
pub proof fn lemma_up_sweep(s: Seq<u32>, k: nat, p: int)
    requires
        0 <= p < s.len(),
    ensures
        up_after(s, k).len() == s.len(),
        up_after(s, k)[p] == wrap(sum_range(s, p + 1 - up_width(p, k), p + 1)),
    decreases k,
{
    vstd::arithmetic::power2::lemma2_to64();
    if k == 0 {
        assert(sum_range(s, p, p + 1) == s[p]) by {
            assert(sum_range(s, p, p) == 0);
        }
        lemma_wrap_word(s[p]);
    } else {
        let j = (k - 1) as nat;
        let h = pow2(j) as int;
        let step = pow2(k) as int;
        vstd::arithmetic::power2::lemma_pow2_unfold(k);
        vstd::arithmetic::power2::lemma_pow2_pos(j);
        lemma_half_step(p + 1, h);
        lemma_up_sweep(s, j, p);
        if is_node(p, step) {
            lemma_up_sweep(s, j, p - h);
            lemma_sum_split(s, p + 1 - step, p + 1 - h, p + 1);
            lemma_wrap_add(sum_range(s, p + 1 - h, p + 1), sum_range(s, p + 1 - step, p + 1 - h));
        }
    }
}

/// Up-sweep passes keep the length of the array.
pub proof fn lemma_up_len(s: Seq<u32>, k: nat)
    ensures
        up_after(s, k).len() == s.len(),
    decreases k,
{
    if k > 0 {
        lemma_up_len(s, (k - 1) as nat);
    }
}

/// Down-sweep passes keep the length of the array.
pub proof fn lemma_down_len(b: Seq<u32>, k: nat, m: nat)
    ensures
        down_from(b, k, m).len() == b.len(),
    decreases m,
{
    if m > 0 && m <= k {
        lemma_down_len(b, k, (m - 1) as nat);
    }
}

/// After `m` down-sweep passes, every position that closes a block of
/// `2^(k-m)` elements holds the sum of everything before that block, and
/// every other position still holds what the up-sweep left.
pub proof fn lemma_down_sweep(s: Seq<u32>, k: nat, m: nat, p: int)
    requires
        s.len() == pow2(k),
        m <= k,
        0 <= p < s.len(),
    ensures
        down_from(set_last_zero(up_after(s, k)), k, m).len() == s.len(),
        down_from(set_last_zero(up_after(s, k)), k, m)[p] == if is_node(
            p,
            pow2((k - m) as nat) as int,
        ) {
            wrap(sum_range(s, 0, p + 1 - pow2((k - m) as nat)))
        } else {
            up_after(s, k)[p]
        },
    decreases m,
{
    let start = set_last_zero(up_after(s, k));
    lemma_up_len(s, k);
    lemma_down_len(start, k, m);
    vstd::arithmetic::power2::lemma_pow2_pos(k);
    if m == 0 {
        let n = s.len() as int;
        if p == n - 1 {
            vstd::arithmetic::div_mod::lemma_mod_self_0(n);
            lemma_wrap_word(0);
        } else {
            vstd::arithmetic::div_mod::lemma_small_mod((p + 1) as nat, n as nat);
        }
    } else {
        let j = (k - m) as nat;
        let h = pow2(j) as int;
        let step = pow2(j + 1) as int;
        vstd::arithmetic::power2::lemma_pow2_unfold(j + 1);
        vstd::arithmetic::power2::lemma_pow2_pos(j);
        lemma_down_len(start, k, (m - 1) as nat);
        lemma_down_sweep(s, k, (m - 1) as nat, p);
        lemma_half_step(p + 1, h);
        lemma_half_step(p + 1 + h, h);
        if is_node(p, step) {
            lemma_down_sweep(s, k, (m - 1) as nat, p - h);
            lemma_width_stable(p - h, j, k);
            lemma_up_sweep(s, k, p - h);
            lemma_sum_split(s, 0, p + 1 - step, p + 1 - h);
            lemma_wrap_add(sum_range(s, 0, p + 1 - step), sum_range(s, p + 1 - step, p + 1 - h));
        } else if is_node(p + h, step) {
            let n = s.len() as int;
            assert(p + h < n) by {
                vstd::arithmetic::div_mod::lemma_mod_self_0(n);
                lemma_pow2_divides(n, j + 1, k);
                let c = (p + h + 1) / step;
                let d = n / step;
                vstd::arithmetic::div_mod::lemma_fundamental_div_mod(p + h + 1, step);
                vstd::arithmetic::div_mod::lemma_fundamental_div_mod(n, step);
                if p + h >= n {
                    assert(c >= d + 1) by (nonlinear_arith)
                        requires step * c > step * d, step >= 1;
                    assert(step * c >= step * d + step) by (nonlinear_arith)
                        requires c >= d + 1, step >= 1;
                }
            }
            lemma_down_sweep(s, k, (m - 1) as nat, p + h);
        }
    }
}

/// The scan is correct: on an array of `2^k` elements, `k` up-sweep passes,
/// the clearing of the last element and `k` down-sweep passes leave the
/// exclusive scan of the input.
pub proof fn lemma_blelloch_scan(s: Seq<u32>, k: nat)
    requires
        s.len() == pow2(k),
    ensures
        blelloch_result(s, k) == exclusive_scan(s),
{
    vstd::arithmetic::power2::lemma2_to64();
    assert forall|p: int| 0 <= p < s.len() implies blelloch_result(s, k)[p] == exclusive_scan(
        s,
    )[p] by {
        lemma_down_sweep(s, k, k, p);
    }
    lemma_up_len(s, k);
    lemma_down_len(set_last_zero(up_after(s, k)), k, k);
}


/// One up-sweep pass on host memory.
pub fn up_sweep_pass(src: &Vec<u32>, step: u32) -> (out: Vec<u32>)
    requires
        step >= 2,
        step % 2 == 0,
    ensures
        out@ == up_step(src@, step as int),
{
    let len = src.len();
    let half: usize = (step / 2) as usize;
    let mut out: Vec<u32> = Vec::new();
    let mut p: usize = 0;
    while p < len
        invariant
            len == src@.len(),
            half == step / 2,
            step >= 2,
            0 <= p <= len,
            out@.len() == p,
            forall|q: int| 0 <= q < p ==> out@[q] == up_step(src@, step as int)[q],
        decreases len - p,
    {
        let closes: bool = (p as u128 + 1) % (step as u128) == 0;
        let v: u32 = if closes && p >= half {
            proof {
                lemma_wadd_is_wrapping(src@[p as int], src@[p - half]);
            }
            src[p].wrapping_add(src[p - half])
        } else {
            src[p]
        };
        out.push(v);
        p += 1;
    }
    out
}

/// The pass between the sweeps on host memory.
pub fn set_last_zero_pass(buf: &mut Vec<u32>)
    ensures
        final(buf)@ == set_last_zero(old(buf)@),
{
    let len = buf.len();
    if len > 0 {
        buf.set(len - 1, 0);
    }
}

/// One down-sweep pass on host memory.
pub fn down_sweep_pass(src: &Vec<u32>, step: u32) -> (out: Vec<u32>)
    requires
        step >= 2,
        step % 2 == 0,
    ensures
        out@ == down_step(src@, step as int),
{
    let len = src.len();
    let half: usize = (step / 2) as usize;
    let mut out: Vec<u32> = Vec::new();
    let mut p: usize = 0;
    while p < len
        invariant
            len == src@.len(),
            half == step / 2,
            step >= 2,
            0 <= p <= len,
            out@.len() == p,
            forall|q: int| 0 <= q < p ==> out@[q] == down_step(src@, step as int)[q],
        decreases len - p,
    {
        let closes: bool = (p as u128 + 1) % (step as u128) == 0;
        let feeds: bool = (p as u128 + half as u128 + 1) % (step as u128) == 0;
        let v: u32 = if closes && p >= half {
            proof {
                lemma_wadd_is_wrapping(src@[p as int], src@[p - half]);
            }
            src[p].wrapping_add(src[p - half])
        } else if feeds && half < len - p {
            src[p + half]
        } else {
            src[p]
        };
        out.push(v);
        p += 1;
    }
    out
}

/// What a work-efficient context holds, as plain mathematics.
pub struct BlellochGpuContextView {
    /// Number of elements: a power of two.
    pub n: nat,
    /// Number of passes in each direction: the binary logarithm of `n`.
    pub max_steps: nat,
    /// Device bound on each dispatch dimension.
    pub max_dim: nat,
    /// The per-pass parameter table, shared by both sweeps.
    pub table: UniformStepTableView,
}

impl BlellochGpuContextView {
    /// The context was planned for its size and device.
    pub open spec fn wf(self) -> bool {
        &&& 1 <= self.n <= u32::MAX
        &&& self.n == pow2(self.max_steps)
        &&& self.max_steps == log2_ceil(self.n as int)
        &&& self.max_steps <= 31
        &&& self.table.wf()
        &&& self.table.passes == self.max_steps
        &&& self.table.first_step == 2
        &&& forall|i: int|
            0 <= i < self.max_steps ==> dispatch_fits(
                #[trigger] self.pass_workgroups(i),
                self.max_dim as int,
            )
    }

    /// Workgroups of pass `i`: one invocation per block of `2^(i+1)` elements.
    pub open spec fn pass_workgroups(self, i: int) -> int {
        workgroups_for(self.n as int / pow2((i + 1) as nat) as int)
    }

    /// Pass `i` of either sweep: step `2^(i+1)`, the `i`-th record, and a
    /// grid with an invocation for every block of that many elements.
    pub open spec fn is_pass(self, i: int, pass: ScanPass) -> bool {
        let w = self.pass_workgroups(i);
        &&& pass.step == pow2((i + 1) as nat)
        &&& pass.bind_group == 0
        &&& pass.offset_bytes == i * self.table.stride
        &&& pass.shape[0] == dispatch_x(w, self.max_dim as int)
        &&& pass.shape[1] == dispatch_y(w, self.max_dim as int)
        &&& pass.shape[2] == dispatch_z(w, self.max_dim as int)
        &&& pass.shape[0] * pass.shape[1] * pass.shape[2] * 64 >= self.n as int / pow2(
            (i + 1) as nat,
        ) as int
    }
}

/// Host side of the work-efficient scan of `n` elements.
pub struct BlellochGpuContext {
    n: usize,
    max_steps: u32,
    max_dim: u32,
    table: UniformStepTable,
}

impl View for BlellochGpuContext {
    type V = BlellochGpuContextView;

    closed spec fn view(&self) -> BlellochGpuContextView {
        BlellochGpuContextView {
            n: self.n as nat,
            max_steps: self.max_steps as nat,
            max_dim: self.max_dim as nat,
            table: self.table@,
        }
    }
}

/// The dispatches of one whole scan, in the order of submission.
pub struct BlellochPlan {
    /// Up-sweep passes, smallest step first.
    pub up_sweep: Vec<ScanPass>,
    /// Workgroup counts of the pass that clears the last element.
    pub set_last_zero: [u32; 3],
    /// Down-sweep passes, largest step first.
    pub down_sweep: Vec<ScanPass>,
}

impl BlellochGpuContext {
    /// `n` is a power of two.
    pub open spec fn is_power_of_two(n: usize) -> bool {
        n == pow2(log2_ceil(n as int))
    }

    /// Sizes and limits for which the scan can be planned: a power of two
    /// whose indices fit a word, passes that fit the device, and a table
    /// that can be built.
    pub open spec fn plannable(n: usize, limits: DeviceLimits) -> bool {
        &&& 1 <= n <= u32::MAX
        &&& Self::is_power_of_two(n)
        &&& forall|i: int|
            0 <= i < log2_ceil(n as int) ==> dispatch_fits(
                workgroups_for(n as int / #[trigger] pow2((i + 1) as nat) as int),
                limits.max_compute_workgroups_per_dimension as int,
            )
        &&& UniformStepTable::buildable(
            2,
            log2_ceil(n as int) as u32,
            limits.min_uniform_buffer_offset_alignment,
        )
    }

    /// Plans the scan of `n` elements on a device with the given limits.
    pub fn new(n: usize, limits: DeviceLimits) -> (r: Result<BlellochGpuContext, ScanError>)
        ensures
            Self::plannable(n, limits) ==> r.is_ok(),
            !Self::plannable(n, limits) ==> r is Err && r->Err_0 == ScanError::ConfigurationError,
            r matches Ok(ctx) ==> {
                &&& ctx@.wf()
                &&& ctx@.n == n
                &&& ctx@.max_dim == limits.max_compute_workgroups_per_dimension
                &&& ctx@.table.stride == crate::uniform_table::stride_for(
                    limits.min_uniform_buffer_offset_alignment as int,
                )
            },
    {
        let (max_steps, power) = ceil_log2_power(n);
        if n == 0 || n > u32::MAX as usize || power != n as u128 {
            return Err(ScanError::ConfigurationError);
        }
        proof {
            vstd::arithmetic::power2::lemma2_to64();
            if max_steps > 32 {
                vstd::arithmetic::power2::lemma_pow2_strictly_increases(32, max_steps as nat);
            }
        }
        let max_dim = limits.max_compute_workgroups_per_dimension;
        let mut i: u32 = 0;
        let mut step: u32 = 2;
        while i < max_steps
            invariant
                0 <= i <= max_steps <= 31,
                n <= u32::MAX,
                max_steps == log2_ceil(n as int),
                max_dim == limits.max_compute_workgroups_per_dimension,
                i < max_steps ==> step == pow2((i + 1) as nat),
                step >= 1,
                forall|j: int|
                    0 <= j < i ==> dispatch_fits(
                        workgroups_for(n as int / #[trigger] pow2((j + 1) as nat) as int),
                        max_dim as int,
                    ),
            decreases max_steps - i,
        {
            let w = workgroups_needed(n as u32 / step);
            if try_split_dispatch_3d(w, max_dim).is_err() {
                proof {
                    assert(!dispatch_fits(
                        workgroups_for(n as int / pow2((i + 1) as nat) as int),
                        max_dim as int,
                    ));
                }
                return Err(ScanError::ConfigurationError);
            }
            i += 1;
            if i < max_steps {
                proof {
                    vstd::arithmetic::power2::lemma2_to64();
                    vstd::arithmetic::power2::lemma_pow2_unfold((i + 1) as nat);
                    if i + 1 < 31 {
                        vstd::arithmetic::power2::lemma_pow2_strictly_increases((i + 1) as nat, 31);
                    }
                }
                step = step * 2;
            }
        }
        proof {
            if max_steps > 0 {
                vstd::arithmetic::power2::lemma_pow2_unfold(max_steps as nat);
                assert(step_of_pass(2, (max_steps - 1) as nat) == pow2(max_steps as nat));
            }
        }
        match UniformStepTable::build(2, max_steps, limits.min_uniform_buffer_offset_alignment) {
            Ok(table) => {
                let ctx = BlellochGpuContext { n, max_steps, max_dim, table };
                proof {
                    assert forall|i: int| 0 <= i < ctx@.max_steps implies dispatch_fits(
                        #[trigger] ctx@.pass_workgroups(i),
                        ctx@.max_dim as int,
                    ) by {
                        assert(dispatch_fits(
                            workgroups_for(n as int / pow2((i + 1) as nat) as int),
                            max_dim as int,
                        ));
                    }
                }
                Ok(ctx)
            },
            Err(_) => Err(ScanError::ConfigurationError),
        }
    }

    /// Number of elements.
    pub fn len(&self) -> (n: usize)
        ensures
            n == self@.n,
    {
        self.n
    }

    /// Number of passes in each direction.
    pub fn max_steps(&self) -> (k: u32)
        ensures
            k == self@.max_steps,
    {
        self.max_steps
    }

    /// Size in bytes of the data buffer and of the staging buffer.
    pub fn byte_len(&self) -> (b: u64)
        requires
            self@.wf(),
        ensures
            b == 4 * self@.n,
    {
        (self.n as u64) * 4
    }

    /// The per-pass parameter table to upload once.
    pub fn uniform_table(&self) -> (t: &UniformStepTable)
        ensures
            t@ == self@.table,
    {
        &self.table
    }

    /// The bytes to write at the start of the data buffer.
    pub fn upload_data(&self, input: &[u32]) -> (bytes: Vec<u8>)
        ensures
            native_layout(input@, bytes@),
    {
        encode_words(input)
    }

    /// The scanned elements held by the mapped staging range, which must be
    /// as long as the data buffer.
    pub fn read_computed_data(&self, mapped: &[u8]) -> (r: Result<Vec<u32>, ScanError>)
        ensures
            mapped@.len() == 4 * self@.n ==> r.is_ok(),
            mapped@.len() != 4 * self@.n ==> r is Err && r->Err_0 == ScanError::MappingFailure,
            r matches Ok(words) ==> words@.len() == self@.n && native_layout(words@, mapped@),
    {
        if mapped.len() % 4 != 0 || mapped.len() / 4 != self.n {
            return Err(ScanError::MappingFailure);
        }
        decode_words(mapped)
    }

    /// Pass `i` of either sweep.
    fn sweep_pass(&self, i: u32, step: u32) -> (pass: ScanPass)
        requires
            self@.wf(),
            i < self@.max_steps,
            step == pow2((i + 1) as nat),
        ensures
            self@.is_pass(i as int, pass),
    {
        proof {
            vstd::arithmetic::power2::lemma_pow2_pos((i + 1) as nat);
        }
        let active: u32 = self.n as u32 / step;
        let w = workgroups_needed(active);
        proof {
            assert(dispatch_fits(self@.pass_workgroups(i as int), self.max_dim as int));
            lemma_dispatch_shape(w as int, self.max_dim as int);
        }
        let shape = split_dispatch_3d(w, self.max_dim);
        proof {
            assert(shape[0] * shape[1] * shape[2] * 64 >= active) by (nonlinear_arith)
                requires
                    shape[0] * shape[1] * shape[2] >= w,
                    w * 64 >= active,
            ;
        }
        let offset_bytes = self.table.offset_bytes(i);
        ScanPass { step, bind_group: 0, offset_bytes, shape }
    }

    /// Step of pass `i`: `2^(i+1)`.
    fn step_of(&self, i: u32) -> (step: u32)
        requires
            self@.wf(),
            i < self@.max_steps,
        ensures
            step == pow2((i + 1) as nat),
            step >= 2,
            step % 2 == 0,
    {
        let mut step: u32 = 2;
        let mut j: u32 = 0;
        proof {
            vstd::arithmetic::power2::lemma2_to64();
        }
        while j < i
            invariant
                0 <= j <= i < 31,
                step == pow2((j + 1) as nat),
                step >= 2,
                step % 2 == 0,
            decreases i - j,
        {
            proof {
                vstd::arithmetic::power2::lemma2_to64();
                vstd::arithmetic::power2::lemma_pow2_unfold((j + 2) as nat);
                if j + 2 < 31 {
                    vstd::arithmetic::power2::lemma_pow2_strictly_increases((j + 2) as nat, 31);
                }
            }
            step = step * 2;
            j += 1;
        }
        step
    }

    /// The up-sweep passes, smallest step first.
    pub fn encode_up_sweep(&self) -> (passes: Vec<ScanPass>)
        requires
            self@.wf(),
        ensures
            passes@.len() == self@.max_steps,
            forall|i: int| 0 <= i < passes@.len() ==> self@.is_pass(i, #[trigger] passes@[i]),
    {
        let mut passes: Vec<ScanPass> = Vec::new();
        let mut i: u32 = 0;
        while i < self.max_steps
            invariant
                self@.wf(),
                0 <= i <= self.max_steps,
                passes@.len() == i,
                forall|j: int| 0 <= j < i ==> self@.is_pass(j, #[trigger] passes@[j]),
            decreases self.max_steps - i,
        {
            let step = self.step_of(i);
            passes.push(self.sweep_pass(i, step));
            i += 1;
        }
        passes
    }

    /// The grid of the pass that clears the last element: one workgroup.
    pub fn encode_set_last_zero(&self) -> (shape: [u32; 3])
        ensures
            shape[0] == 1,
            shape[1] == 1,
            shape[2] == 1,
    {
        [1, 1, 1]
    }

    /// The down-sweep passes, largest step first: entry `r` is pass
    /// `max_steps - 1 - r` of the up-sweep, with the same record and grid.
    pub fn encode_down_sweep(&self) -> (passes: Vec<ScanPass>)
        requires
            self@.wf(),
        ensures
            passes@.len() == self@.max_steps,
            forall|r: int|
                0 <= r < passes@.len() ==> self@.is_pass(
                    self@.max_steps - 1 - r,
                    #[trigger] passes@[r],
                ),
    {
        let mut passes: Vec<ScanPass> = Vec::new();
        let mut i: u32 = self.max_steps;
        while i > 0
            invariant
                self@.wf(),
                0 <= i <= self.max_steps,
                passes@.len() == self.max_steps - i,
                forall|r: int|
                    0 <= r < passes@.len() ==> self@.is_pass(
                        self@.max_steps - 1 - r,
                        #[trigger] passes@[r],
                    ),
            decreases i,
        {
            i -= 1;
            let step = self.step_of(i);
            passes.push(self.sweep_pass(i, step));
        }
        passes
    }

    /// The dispatches of one whole scan: up-sweep, clearing of the last
    /// element, down-sweep.
    pub fn run_prefix_sum(&self) -> (plan: BlellochPlan)
        requires
            self@.wf(),
        ensures
            plan.up_sweep@.len() == self@.max_steps,
            plan.down_sweep@.len() == self@.max_steps,
            forall|i: int|
                0 <= i < self@.max_steps ==> self@.is_pass(i, #[trigger] plan.up_sweep@[i]),
            forall|r: int|
                0 <= r < self@.max_steps ==> self@.is_pass(
                    self@.max_steps - 1 - r,
                    #[trigger] plan.down_sweep@[r],
                ),
            plan.set_last_zero[0] == 1,
            plan.set_last_zero[1] == 1,
            plan.set_last_zero[2] == 1,
    {
        let up_sweep = self.encode_up_sweep();
        let set_last_zero = self.encode_set_last_zero();
        let down_sweep = self.encode_down_sweep();
        BlellochPlan { up_sweep, set_last_zero, down_sweep }
    }

    /// Runs the planned passes on host memory, as the device runs them on its
    /// single buffer, and returns the buffer: the exclusive scan of `input`.
    pub fn run_on_host(&self, input: &[u32]) -> (out: Vec<u32>)
        requires
            self@.wf(),
            input@.len() == self@.n,
        ensures
            out@ == exclusive_scan(input@),
    {
        let plan = self.run_prefix_sum();
        let mut buf: Vec<u32> = copy_words(input);
        let mut i: usize = 0;
        proof {
            vstd::arithmetic::power2::lemma2_to64();
        }
        while i < plan.up_sweep.len()
            invariant
                self@.wf(),
                plan.up_sweep@.len() == self@.max_steps,
                forall|q: int|
                    0 <= q < self@.max_steps ==> self@.is_pass(q, #[trigger] plan.up_sweep@[q]),
                0 <= i <= plan.up_sweep@.len(),
                buf@ == up_after(input@, i as nat),
            decreases plan.up_sweep@.len() - i,
        {
            let pass = plan.up_sweep[i];
            proof {
                vstd::arithmetic::power2::lemma_pow2_unfold((i + 1) as nat);
                vstd::arithmetic::power2::lemma_pow2_pos(i as nat);
            }
            buf = up_sweep_pass(&buf, pass.step);
            i += 1;
        }
        set_last_zero_pass(&mut buf);
        let ghost cleared = buf@;
        let mut r: usize = 0;
        while r < plan.down_sweep.len()
            invariant
                self@.wf(),
                plan.down_sweep@.len() == self@.max_steps,
                forall|q: int|
                    0 <= q < self@.max_steps ==> self@.is_pass(
                        self@.max_steps - 1 - q,
                        #[trigger] plan.down_sweep@[q],
                    ),
                0 <= r <= plan.down_sweep@.len(),
                cleared == set_last_zero(up_after(input@, self@.max_steps)),
                buf@ == down_from(cleared, self@.max_steps, r as nat),
            decreases plan.down_sweep@.len() - r,
        {
            let pass = plan.down_sweep[r];
            proof {
                vstd::arithmetic::power2::lemma_pow2_unfold((self@.max_steps - r) as nat);
                vstd::arithmetic::power2::lemma_pow2_pos((self@.max_steps - r - 1) as nat);
            }
            buf = down_sweep_pass(&buf, pass.step);
            r += 1;
        }
        proof {
            lemma_blelloch_scan(input@, self@.max_steps);
        }
        buf
    }
}

} // verus!
