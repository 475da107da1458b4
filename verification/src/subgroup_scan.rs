//! Subgroup-accelerated scan: every tile is scanned by the lock-step
//! primitives of the device in a single dispatch, so the host records no
//! per-step passes and no parameter table. Arrays beyond one tile reuse the
//! hierarchy of levels of the block-recursive scan. The result is the
//! inclusive scan.

use vstd::prelude::*;
use crate::block_blelloch_scan::{
    lemma_level_input_len, lemma_level_sizes, lemma_tile_prefix, lemma_wrap_congruence,
    level_input, tile_end, tile_start, tile_sums, BlockBlellochGpuContext,
    BlockBlellochGpuContextView, LevelPass, TILE_SIZE,
};
use crate::dispatch::ceil_div;
use crate::error::ScanError;
use crate::layout::{copy_words, native_layout, zero_words};
use crate::plan::DeviceLimits;
use crate::scan_model::{
    inclusive_scan, lemma_sum_split, lemma_wadd_is_wrapping, lemma_wrap_add, lemma_wrap_add_word,
    lemma_wrap_word, sum_range, wadd, wrap,
};

verus! {

/// Every tile scanned on its own, inclusively: each position holds the sum
/// of the elements of its tile up to and including itself.
pub open spec fn tile_inclusive(s: Seq<u32>) -> Seq<u32> {
    Seq::new(s.len(), |p: int| wrap(sum_range(s, tile_start(p), p + 1)))
}

/// Adds to every element beyond the first tile the scanned total of the
/// tiles before its own, which an inclusive scan of the totals holds one
/// entry earlier.
pub open spec fn carry_in(data: Seq<u32>, scanned_sums: Seq<u32>) -> Seq<u32> {
    Seq::new(
        data.len(),
        |p: int|
            if p / 64 == 0 {
                data[p]
            } else {
                wadd(data[p], scanned_sums[p / 64 - 1])
            },
    )
}

/// What the scan leaves at level 0.
pub open spec fn subgroup_result(s: Seq<u32>) -> Seq<u32>
    decreases s.len(),
{
    if s.len() <= 64 {
        tile_inclusive(s)
    } else {
        carry_in(tile_inclusive(s), subgroup_result(tile_sums(s)))
    }
}

/// An array that fits one tile is scanned by the tile-wise scan.
pub proof fn lemma_single_tile_inclusive(s: Seq<u32>)
    requires
        s.len() <= 64,
    ensures
        tile_inclusive(s) == inclusive_scan(s),
{
}

/// Carrying the scanned tile totals into the tile-wise scan gives the scan
/// of the whole array.
pub proof fn lemma_carry_in(s: Seq<u32>)
    ensures
        carry_in(tile_inclusive(s), inclusive_scan(tile_sums(s))) == inclusive_scan(s),
{
    let lhs = carry_in(tile_inclusive(s), inclusive_scan(tile_sums(s)));
    assert forall|p: int| 0 <= p < s.len() implies lhs[p] == inclusive_scan(s)[p] by {
        let t = p / 64;
        if t > 0 {
            assert(t < tile_sums(s).len()) by {
                vstd::arithmetic::div_mod::lemma_fundamental_div_mod(s.len() as int + 63, 64);
            }
            lemma_tile_prefix(s, t);
            lemma_sum_split(s, 0, 64 * t, p + 1);
            lemma_wrap_add(sum_range(s, 64 * t, p + 1), sum_range(tile_sums(s), 0, t));
            lemma_wrap_congruence(
                sum_range(s, 64 * t, p + 1),
                sum_range(s, 64 * t, p + 1),
                sum_range(tile_sums(s), 0, t),
                sum_range(s, 0, 64 * t),
            );
        }
    }
}

/// The subgroup scan leaves the inclusive scan, for every size.
pub proof fn lemma_subgroup_result(s: Seq<u32>)
    ensures
        subgroup_result(s) == inclusive_scan(s),
    decreases s.len(),
{
    if s.len() <= 64 {
        lemma_single_tile_inclusive(s);
    } else {
        lemma_subgroup_result(tile_sums(s));
        lemma_carry_in(s);
    }
}

/// Scans every tile of `src` inclusively on host memory and collects the
/// tile totals.
pub fn subgroup_scan_write_sum(src: &Vec<u32>) -> (r: (Vec<u32>, Vec<u32>))
    ensures
        r.0@ == tile_inclusive(src@),
        r.1@ == tile_sums(src@),
{
    let len = src.len();
    let mut scanned: Vec<u32> = Vec::new();
    let mut sums: Vec<u32> = Vec::new();
    let mut start: usize = 0;
    while start < len
        invariant
            len == src@.len(),
            0 <= start <= len,
            start % 64 == 0 || start == len,
            scanned@.len() == start,
            sums@.len() == ceil_div(start as int, 64),
            forall|p: int| 0 <= p < start ==> scanned@[p] == tile_inclusive(src@)[p],
            forall|t: int| 0 <= t < sums@.len() ==> sums@[t] == tile_sums(src@)[t],
        decreases len - start,
    {
        let end: usize = if len - start > TILE_SIZE { start + TILE_SIZE } else { len };
        let ghost t = start as int / 64;
        let mut acc: u32 = 0;
        let mut p: usize = start;
        proof {
            lemma_wrap_word(0);
        }
        while p < end
            invariant
                len == src@.len(),
                start <= p <= end <= len,
                end <= start + 64,
                start == 64 * t,
                scanned@.len() == p,
                acc == wrap(sum_range(src@, start as int, p as int)),
                forall|q: int| 0 <= q < p ==> scanned@[q] == tile_inclusive(src@)[q],
            decreases end - p,
        {
            proof {
                lemma_wrap_add_word(sum_range(src@, start as int, p as int), src@[p as int]);
                lemma_wadd_is_wrapping(acc, src@[p as int]);
            }
            acc = acc.wrapping_add(src[p]);
            scanned.push(acc);
            p += 1;
        }
        sums.push(acc);
        start = end;
    }
    (scanned, sums)
}

/// Adds to every element of `data` beyond the first tile the entry of
/// `scanned_sums` for the tile before its own.
pub fn carry_in_pass(data: &Vec<u32>, scanned_sums: &Vec<u32>) -> (out: Vec<u32>)
    requires
        scanned_sums@.len() == ceil_div(data@.len() as int, 64),
    ensures
        out@ == carry_in(data@, scanned_sums@),
{
    let len = data.len();
    let mut out: Vec<u32> = Vec::new();
    let mut p: usize = 0;
    while p < len
        invariant
            len == data@.len(),
            scanned_sums@.len() == ceil_div(len as int, 64),
            0 <= p <= len,
            out@.len() == p,
            forall|q: int| 0 <= q < p ==> out@[q] == carry_in(data@, scanned_sums@)[q],
        decreases len - p,
    {
        let t: usize = p / TILE_SIZE;
        let v: u32 = if t == 0 {
            data[p]
        } else {
            proof {
                lemma_wadd_is_wrapping(data@[p as int], scanned_sums@[t - 1]);
            }
            data[p].wrapping_add(scanned_sums[t - 1])
        };
        out.push(v);
        p += 1;
    }
    out
}

/// Host side of the subgroup-accelerated scan of `n` elements.
pub struct SubgroupScanGpuContext {
    hierarchy: BlockBlellochGpuContext,
}

impl View for SubgroupScanGpuContext {
    type V = BlockBlellochGpuContextView;

    closed spec fn view(&self) -> BlockBlellochGpuContextView {
        self.hierarchy@
    }
}

impl SubgroupScanGpuContext {
    /// Plans the scan of `n` elements: one dispatch where `n` fits a tile,
    /// the hierarchy of the block-recursive scan beyond that.
    pub fn new(n: usize, limits: DeviceLimits) -> (r: Result<SubgroupScanGpuContext, ScanError>)
        ensures
            BlockBlellochGpuContext::plannable(n, limits) ==> r.is_ok(),
            !BlockBlellochGpuContext::plannable(n, limits) ==> r is Err && r->Err_0
                == ScanError::ConfigurationError,
            r matches Ok(ctx) ==> {
                &&& ctx@.wf()
                &&& ctx@.n == n
                &&& ctx@.max_dim == limits.max_compute_workgroups_per_dimension
            },
    {
        match BlockBlellochGpuContext::new(n, limits) {
            Ok(hierarchy) => Ok(SubgroupScanGpuContext { hierarchy }),
            Err(_) => Err(ScanError::ConfigurationError),
        }
    }

    /// The hierarchy of levels and its wirings.
    pub fn hierarchy(&self) -> (h: &BlockBlellochGpuContext)
        ensures
            h@ == self@,
    {
        &self.hierarchy
    }

    /// The bytes to write at the start of the level-0 buffer.
    pub fn upload_data(&self, input: &[u32]) -> (bytes: Vec<u8>)
        ensures
            native_layout(input@, bytes@),
    {
        self.hierarchy.upload_data(input)
    }

    /// The scanned elements held by the mapped staging range, which must be
    /// as long as the staging buffer.
    pub fn read_computed_data(&self, mapped: &[u8]) -> (r: Result<Vec<u32>, ScanError>)
        ensures
            mapped@.len() == 4 * self@.n ==> r.is_ok(),
            mapped@.len() != 4 * self@.n ==> r is Err && r->Err_0 == ScanError::MappingFailure,
            r matches Ok(words) ==> words@.len() == self@.n && native_layout(words@, mapped@),
    {
        self.hierarchy.read_computed_data(mapped)
    }

    /// The dispatches of the scan, in the order in which one compute pass
    /// records them: a single one where the array fits a tile.
    pub fn encode_scan(&self) -> (passes: Vec<LevelPass>)
        requires
            self@.wf(),
        ensures
            passes@.len() == 2 * self@.levels.len() - 1,
            self@.n <= 64 ==> passes@.len() == 1,
            forall|i: int| 0 <= i < passes@.len() ==> self@.is_pass(i, #[trigger] passes@[i]),
    {
        proof {
            crate::block_blelloch_scan::lemma_level_count(self@.n as u32);
        }
        self.hierarchy.encode_scan()
    }

    /// Runs the planned dispatches on host memory and returns level 0: the
    /// inclusive scan of `input`.
    pub fn run_on_host(&self, input: &[u32]) -> (out: Vec<u32>)
        requires
            self@.wf(),
            input@.len() == self@.n,
        ensures
            out@ == inclusive_scan(input@),
    {
        let passes = self.encode_scan();
        let levels = self.hierarchy.elms_per_level().len();
        proof {
            lemma_level_sizes(self@.n as u32);
        }
        let mut bufs: Vec<Vec<u32>> = Vec::new();
        bufs.push(copy_words(input));
        let mut k: usize = 1;
        while k < levels
            invariant
                levels == self@.levels.len(),
                1 <= k <= levels,
                bufs@.len() == k,
                bufs@[0]@ == input@,
            decreases levels - k,
        {
            bufs.push(zero_words(self.hierarchy.elms_per_level()[k] as usize));
            k += 1;
        }
        let mut i: usize = 0;
        while i < levels - 1
            invariant
                self@.wf(),
                input@.len() == self@.n,
                levels == self@.levels.len(),
                levels >= 1,
                0 <= i <= levels - 1,
                bufs@.len() == levels,
                passes@.len() == 2 * levels - 1,
                forall|q: int| 0 <= q < passes@.len() ==> self@.is_pass(q, #[trigger] passes@[q]),
                bufs@[i as int]@ == level_input(input@, i as nat),
                forall|j: int|
                    0 <= j < i ==> (#[trigger] bufs@[j])@ == tile_inclusive(
                        level_input(input@, j as nat),
                    ),
            decreases levels - i,
        {
            let pass = passes[i];
            let wiring = self.hierarchy.bind_groups_write_sum()[pass.bind_group];
            let (scanned, sums) = subgroup_scan_write_sum(&bufs[wiring.data]);
            bufs.set(wiring.data, scanned);
            bufs.set(wiring.sums, sums);
            i += 1;
        }
        let last_idx = self.hierarchy.bind_group_no_sum();
        let scanned = subgroup_scan_write_sum(&bufs[last_idx]).0;
        bufs.set(last_idx, scanned);
        proof {
            lemma_level_input_len(input@, last_idx as nat);
            lemma_single_tile_inclusive(level_input(input@, last_idx as nat));
        }
        let total = passes.len();
        let mut j: usize = 0;
        while j < levels - 1
            invariant
                total == 2 * levels - 1,
                self@.wf(),
                input@.len() == self@.n,
                levels == self@.levels.len(),
                levels >= 1,
                0 <= j <= levels - 1,
                bufs@.len() == levels,
                passes@.len() == 2 * levels - 1,
                forall|q: int| 0 <= q < passes@.len() ==> self@.is_pass(q, #[trigger] passes@[q]),
                bufs@[levels - 1 - j]@ == inclusive_scan(
                    level_input(input@, (levels - 1 - j) as nat),
                ),
                forall|q: int|
                    0 <= q < levels - 1 - j ==> (#[trigger] bufs@[q])@ == tile_inclusive(
                        level_input(input@, q as nat),
                    ),
            decreases levels - j,
        {
            let pass = passes[levels + j];
            let wiring = self.hierarchy.bind_groups_add_carry()[pass.bind_group];
            proof {
                let below = level_input(input@, (levels - 2 - j) as nat);
                lemma_carry_in(below);
            }
            let carried = carry_in_pass(&bufs[wiring.data], &bufs[wiring.sums]);
            bufs.set(wiring.data, carried);
            j += 1;
        }
        copy_words(bufs[0].as_slice())
    }
}

} // verus!
