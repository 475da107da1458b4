//! Block-recursive scan: the array is cut into tiles, every tile is scanned
//! in place while its total goes to the next level, the totals are scanned
//! the same way, and the scanned totals are carried back down. The result is
//! the exclusive scan, for any number of elements.

use vstd::prelude::*;
use vstd::arithmetic::power::pow;
use crate::dispatch::{
    ceil_div, dispatch_fits, dispatch_x, dispatch_y, dispatch_z, lemma_dispatch_shape, split_dispatch_3d, try_split_dispatch_3d, workgroups_for,
    workgroups_needed,
};
use crate::error::ScanError;
use crate::layout::{copy_words, decode_words, encode_words, native_layout, zero_words};
use crate::plan::DeviceLimits;
use crate::scan_model::{
    exclusive_scan, lemma_sum_split, lemma_wadd_is_wrapping, lemma_wrap_add, lemma_wrap_add_word,
    lemma_wrap_word, sum_range, wadd, wrap,
};

verus! {

/// Elements that one workgroup scans: the width of a tile.
pub const TILE_SIZE: usize = 64;

/// The kernels of the block-recursive scan.
#[derive(Clone, Copy, Debug, PartialEq, Eq, Structural)]
pub enum LevelKernel {
    /// Scans every tile of a level in place and writes each tile's total to
    /// the next level.
    ScanWriteSum,
    /// Scans the single tile of the last level in place.
    ScanNoSum,
    /// Adds to every element of a level the scanned total of the tiles before
    /// its own.
    AddCarry,
}

/// Two buffers bound together for one kernel, by their level.
#[derive(Clone, Copy, Debug)]
pub struct Wiring {
    /// Level of the buffer at binding 0: the data that the kernel updates.
    pub data: usize,
    /// Level of the buffer at binding 1: the totals written or read.
    pub sums: usize,
}

/// One dispatch of the block-recursive scan.
#[derive(Clone, Copy, Debug)]
pub struct LevelPass {
    /// The kernel to run.
    pub kernel: LevelKernel,
    /// Index of the wiring in the list that belongs to the kernel; zero for
    /// the kernel of the last level, which has a single wiring.
    pub bind_group: usize,
    /// Workgroup counts of the dispatch.
    pub shape: [u32; 3],
}

/// Sizes of the levels for `n` elements: `n` itself, then one element per
/// tile of the level before, until a level fits in one tile.
pub open spec fn level_sizes(n: u32) -> Seq<u32>
    decreases n,
{
    if n <= 64 {
        seq![n]
    } else {
        seq![n] + level_sizes(((n + 63) / 64) as u32)
    }
}

/// The hierarchy is never empty, starts with `n`, shrinks strictly from level
/// to level by the tile width, and ends with the only level that fits a tile.
pub proof fn lemma_level_sizes(n: u32)
    ensures
        level_sizes(n).len() >= 1,
        level_sizes(n)[0] == n,
        level_sizes(n).last() <= 64,
        forall|k: int|
            0 <= k < level_sizes(n).len() - 1 ==> {
                &&& #[trigger] level_sizes(n)[k] > 64
                &&& level_sizes(n)[k + 1] == ceil_div(level_sizes(n)[k] as int, 64)
                &&& level_sizes(n)[k + 1] < level_sizes(n)[k]
            },
    decreases n,
{
    if n > 64 {
        let m = ((n + 63) / 64) as u32;
        lemma_level_sizes(m);
        let rest = level_sizes(m);
        let all = level_sizes(n);
        assert forall|k: int| 0 <= k < all.len() - 1 implies {
            &&& #[trigger] all[k] > 64
            &&& all[k + 1] == ceil_div(all[k] as int, 64)
            &&& all[k + 1] < all[k]
        } by {
            if k > 0 {
                assert(all[k] == rest[k - 1]);
            }
        }
    }
}

/// The number of levels is the least `k >= 1` with `n <= 64^k`: one level up
/// to a tile, two up to a tile of tiles, and so on.
pub proof fn lemma_level_count(n: u32)
    ensures
        n <= pow(64, level_sizes(n).len()),
        level_sizes(n).len() > 1 ==> n > pow(64, (level_sizes(n).len() - 1) as nat),
        n <= 64 <==> level_sizes(n).len() == 1,
    decreases n,
{
    vstd::arithmetic::power::lemma_pow1(64);
    vstd::arithmetic::power::lemma_pow0(64);
    if n > 64 {
        let m = ((n + 63) / 64) as u32;
        lemma_level_count(m);
        let l = level_sizes(m).len();
        assert(pow(64, l + 1) == 64 * pow(64, l)) by {
            vstd::arithmetic::power::lemma_pow_adds(64, 1, l);
        }
        if l > 1 {
            assert(pow(64, l) == 64 * pow(64, (l - 1) as nat)) by {
                vstd::arithmetic::power::lemma_pow_adds(64, 1, (l - 1) as nat);
            }
        }
    }
}

/// First index of the tile that holds position `p`.
pub open spec fn tile_start(p: int) -> int {
    (p / 64) * 64
}

/// End of tile `t` in an array of `len` elements.
pub open spec fn tile_end(t: int, len: int) -> int {
    if 64 * (t + 1) <= len { 64 * (t + 1) } else { len }
}

/// Every tile scanned on its own: each position holds the sum of the
/// elements of its tile that precede it.
pub open spec fn tile_exclusive(s: Seq<u32>) -> Seq<u32> {
    Seq::new(s.len(), |p: int| wrap(sum_range(s, tile_start(p), p)))
}

/// The total of every tile.
pub open spec fn tile_sums(s: Seq<u32>) -> Seq<u32> {
    Seq::new(
        ceil_div(s.len() as int, 64) as nat,
        |t: int| wrap(sum_range(s, 64 * t, tile_end(t, s.len() as int))),
    )
}

/// Adds to every element the entry of `carry` that belongs to its tile.
pub open spec fn add_carry(data: Seq<u32>, carry: Seq<u32>) -> Seq<u32> {
    Seq::new(data.len(), |p: int| wadd(data[p], carry[p / 64]))
}

/// What level `k` holds before it is scanned: the input at level 0, the tile
/// totals of the level below elsewhere.
pub open spec fn level_input(s: Seq<u32>, k: nat) -> Seq<u32>
    decreases k,
{
    if k == 0 {
        s
    } else {
        tile_sums(level_input(s, (k - 1) as nat))
    }
}

/// Sums that agree modulo 2^32 term by term agree modulo 2^32.
pub proof fn lemma_wrap_congruence(a: int, a2: int, b: int, b2: int)
    requires
        wrap(a) == wrap(a2),
        wrap(b) == wrap(b2),
    ensures
        wrap(a + b) == wrap(a2 + b2),
{
    lemma_wrap_add(a, b);
    lemma_wrap_add(a2, b2);
}

/// The totals of the first `t` tiles sum to the first `64 t` elements.
pub proof fn lemma_tile_prefix(s: Seq<u32>, t: int)
    requires
        0 <= t,
        64 * t <= s.len(),
    ensures
        wrap(sum_range(tile_sums(s), 0, t)) == wrap(sum_range(s, 0, 64 * t)),
    decreases t,
{
    if t > 0 {
        lemma_tile_prefix(s, t - 1);
        let sums = tile_sums(s);
        assert(t - 1 < sums.len()) by {
            vstd::arithmetic::div_mod::lemma_fundamental_div_mod(s.len() as int + 63, 64);
        }
        let total = sum_range(s, 64 * (t - 1), 64 * t);
        lemma_wrap_word(sums[t - 1]);
        lemma_wrap_congruence(
            sum_range(sums, 0, t - 1),
            sum_range(s, 0, 64 * (t - 1)),
            sums[t - 1] as int,
            total,
        );
        lemma_sum_split(s, 0, 64 * (t - 1), 64 * t);
    }
}

/// Carrying the scanned tile totals into the tile-wise scan gives the scan
/// of the whole array.
pub proof fn lemma_carry(s: Seq<u32>)
    ensures
        add_carry(tile_exclusive(s), exclusive_scan(tile_sums(s))) == exclusive_scan(s),
{
    let lhs = add_carry(tile_exclusive(s), exclusive_scan(tile_sums(s)));
    assert forall|p: int| 0 <= p < s.len() implies lhs[p] == exclusive_scan(s)[p] by {
        let t = p / 64;
        assert(t < tile_sums(s).len()) by {
            vstd::arithmetic::div_mod::lemma_fundamental_div_mod(s.len() as int + 63, 64);
        }
        lemma_tile_prefix(s, t);
        lemma_sum_split(s, 0, 64 * t, p);
        lemma_wrap_add(sum_range(s, 64 * t, p), sum_range(tile_sums(s), 0, t));
        lemma_wrap_congruence(
            sum_range(s, 64 * t, p),
            sum_range(s, 64 * t, p),
            sum_range(tile_sums(s), 0, t),
            sum_range(s, 0, 64 * t),
        );
    }
}

/// An array that fits one tile is scanned by the tile-wise scan.
pub proof fn lemma_single_tile(s: Seq<u32>)
    requires
        s.len() <= 64,
    ensures
        tile_exclusive(s) == exclusive_scan(s),
{
}

/// What the scan leaves at level 0: the tile-wise scan, with the result of
/// the scan of the tile totals carried in where there is more than one tile.
pub open spec fn block_result(s: Seq<u32>) -> Seq<u32>
    decreases s.len(),
{
    if s.len() <= 64 {
        tile_exclusive(s)
    } else {
        add_carry(tile_exclusive(s), block_result(tile_sums(s)))
    }
}

/// The block-recursive scan leaves the exclusive scan, for every size.
pub proof fn lemma_block_result(s: Seq<u32>)
    ensures
        block_result(s) == exclusive_scan(s),
    decreases s.len(),
{
    if s.len() <= 64 {
        lemma_single_tile(s);
    } else {
        lemma_block_result(tile_sums(s));
        lemma_carry(s);
    }
}

/// Scans every tile of `src` on host memory and collects the tile totals.
pub fn block_scan_write_sum(src: &Vec<u32>) -> (r: (Vec<u32>, Vec<u32>))
    ensures
        r.0@ == tile_exclusive(src@),
        r.1@ == tile_sums(src@),
{
    let len = src.len();
    let mut scanned: Vec<u32> = Vec::new();
    let mut sums: Vec<u32> = Vec::new();
    let mut start: usize = 0;
    while start < len
        invariant
            len == src@.len(),
            0 <= start <= len,
            start % 64 == 0 || start == len,
            scanned@.len() == start,
            sums@.len() == ceil_div(start as int, 64),
            forall|p: int| 0 <= p < start ==> scanned@[p] == tile_exclusive(src@)[p],
            forall|t: int| 0 <= t < sums@.len() ==> sums@[t] == tile_sums(src@)[t],
        decreases len - start,
    {
        let end: usize = if len - start > TILE_SIZE { start + TILE_SIZE } else { len };
        let ghost t = start as int / 64;
        let mut acc: u32 = 0;
        let mut p: usize = start;
        proof {
            lemma_wrap_word(0);
        }
        while p < end
            invariant
                len == src@.len(),
                start <= p <= end <= len,
                end <= start + 64,
                start == 64 * t,
                scanned@.len() == p,
                acc == wrap(sum_range(src@, start as int, p as int)),
                forall|q: int| 0 <= q < p ==> scanned@[q] == tile_exclusive(src@)[q],
            decreases end - p,
        {
            scanned.push(acc);
            proof {
                lemma_wrap_add_word(sum_range(src@, start as int, p as int), src@[p as int]);
                lemma_wadd_is_wrapping(acc, src@[p as int]);
            }
            acc = acc.wrapping_add(src[p]);
            p += 1;
        }
        sums.push(acc);
        start = end;
    }
    (scanned, sums)
}

/// Scans every tile of `src` on host memory without keeping the totals.
pub fn block_scan_no_sum(src: &Vec<u32>) -> (scanned: Vec<u32>)
    ensures
        scanned@ == tile_exclusive(src@),
{
    block_scan_write_sum(src).0
}

/// Adds to every element of `data` the entry of `carry` for its tile.
pub fn add_carry_pass(data: &Vec<u32>, carry: &Vec<u32>) -> (out: Vec<u32>)
    requires
        carry@.len() == ceil_div(data@.len() as int, 64),
    ensures
        out@ == add_carry(data@, carry@),
{
    let len = data.len();
    let mut out: Vec<u32> = Vec::new();
    let mut p: usize = 0;
    while p < len
        invariant
            len == data@.len(),
            carry@.len() == ceil_div(len as int, 64),
            0 <= p <= len,
            out@.len() == p,
            forall|q: int| 0 <= q < p ==> out@[q] == add_carry(data@, carry@)[q],
        decreases len - p,
    {
        proof {
            lemma_wadd_is_wrapping(data@[p as int], carry@[p as int / 64]);
        }
        out.push(data[p].wrapping_add(carry[p / TILE_SIZE]));
        p += 1;
    }
    out
}


/// What a block-recursive context holds, as plain mathematics.
pub struct BlockBlellochGpuContextView {
    /// Number of elements.
    pub n: nat,
    /// Device bound on each dispatch dimension.
    pub max_dim: nat,
    /// Number of elements of every level, level 0 first.
    pub levels: Seq<u32>,
    /// Wirings of the scan that writes totals, one per level but the last.
    pub write_sum: Seq<Wiring>,
    /// Wirings of the carry, in the order in which the carry runs.
    pub add_carry: Seq<Wiring>,
}

impl BlockBlellochGpuContextView {
    /// The hierarchy belongs to `n`, adjacent levels are wired to each other
    /// in order, and every level can be dispatched.
    pub open spec fn wf(self) -> bool {
        &&& self.n <= u32::MAX
        &&& self.levels == level_sizes(self.n as u32)
        &&& self.write_sum.len() == self.levels.len() - 1
        &&& self.add_carry.len() == self.levels.len() - 1
        &&& forall|i: int|
            0 <= i < self.write_sum.len() ==> (#[trigger] self.write_sum[i]).data == i
                && self.write_sum[i].sums == i + 1
        &&& forall|j: int|
            0 <= j < self.add_carry.len() ==> (#[trigger] self.add_carry[j]).data
                == self.levels.len() - 2 - j && self.add_carry[j].sums == self.levels.len() - 1
                - j
        &&& forall|k: int|
            0 <= k < self.levels.len() ==> dispatch_fits(
                workgroups_for(#[trigger] self.levels[k] as int),
                self.max_dim as int,
            )
    }

    /// The grid of `pass` is the greedy split for a level of `elements`
    /// elements, and so starts at least one workgroup per tile.
    pub open spec fn grid_for(self, pass: LevelPass, elements: int) -> bool {
        let w = workgroups_for(elements);
        &&& pass.shape[0] == dispatch_x(w, self.max_dim as int)
        &&& pass.shape[1] == dispatch_y(w, self.max_dim as int)
        &&& pass.shape[2] == dispatch_z(w, self.max_dim as int)
        &&& pass.shape[0] * pass.shape[1] * pass.shape[2] >= ceil_div(elements, 64)
    }

    /// Dispatch `i` of the scan. With `l` levels: the first `l - 1` scan
    /// levels `0 .. l - 1` upwards and write their totals; the next scans the
    /// last level; the last `l - 1` carry downwards, the `j`-th of them from
    /// level `l - 1 - j` into level `l - 2 - j`.
    pub open spec fn is_pass(self, i: int, pass: LevelPass) -> bool {
        let l = self.levels.len() as int;
        if i < l - 1 {
            &&& pass.kernel == LevelKernel::ScanWriteSum
            &&& pass.bind_group == i
            &&& self.grid_for(pass, self.levels[i] as int)
        } else if i == l - 1 {
            &&& pass.kernel == LevelKernel::ScanNoSum
            &&& pass.bind_group == 0
            &&& self.grid_for(pass, self.levels[i] as int)
        } else {
            &&& pass.kernel == LevelKernel::AddCarry
            &&& pass.bind_group == i - l
            &&& self.grid_for(pass, self.levels[2 * l - 2 - i] as int)
        }
    }
}

/// Host side of the block-recursive scan of `n` elements.
pub struct BlockBlellochGpuContext {
    n: usize,
    max_dim: u32,
    elms_per_level: Vec<u32>,
    bind_groups_write_sum: Vec<Wiring>,
    bind_groups_add_carry: Vec<Wiring>,
}

impl View for BlockBlellochGpuContext {
    type V = BlockBlellochGpuContextView;

    closed spec fn view(&self) -> BlockBlellochGpuContextView {
        BlockBlellochGpuContextView {
            n: self.n as nat,
            max_dim: self.max_dim as nat,
            levels: self.elms_per_level@,
            write_sum: self.bind_groups_write_sum@,
            add_carry: self.bind_groups_add_carry@,
        }
    }
}

/// Level `k` of the hierarchy of `s` has the size that the plan gives it.
pub proof fn lemma_level_input_len(s: Seq<u32>, k: nat)
    requires
        s.len() <= u32::MAX,
        k < level_sizes(s.len() as u32).len(),
    ensures
        level_input(s, k).len() == level_sizes(s.len() as u32)[k as int],
    decreases k,
{
    lemma_level_sizes(s.len() as u32);
    if k > 0 {
        lemma_level_input_len(s, (k - 1) as nat);
    }
}

/// The grid for a level covers its tiles.
proof fn lemma_grid_covers(elements: int, m: int)
    requires
        0 <= elements,
        dispatch_fits(workgroups_for(elements), m),
    ensures
        dispatch_x(workgroups_for(elements), m) * dispatch_y(workgroups_for(elements), m)
            * dispatch_z(workgroups_for(elements), m) >= ceil_div(elements, 64),
{
    lemma_dispatch_shape(workgroups_for(elements), m);
}

impl BlockBlellochGpuContext {
    /// Sizes and limits for which the scan can be planned: indices fit a
    /// word and every level fits the device's dispatch bound.
    pub open spec fn plannable(n: usize, limits: DeviceLimits) -> bool {
        &&& n <= u32::MAX
        &&& forall|k: int|
            0 <= k < level_sizes(n as u32).len() ==> dispatch_fits(
                workgroups_for(#[trigger] level_sizes(n as u32)[k] as int),
                limits.max_compute_workgroups_per_dimension as int,
            )
    }

    /// Plans the scan of `n` elements: builds the hierarchy of levels and
    /// wires every level to the next.
    pub fn new(n: usize, limits: DeviceLimits) -> (r: Result<BlockBlellochGpuContext, ScanError>)
        ensures
            Self::plannable(n, limits) ==> r.is_ok(),
            !Self::plannable(n, limits) ==> r is Err && r->Err_0 == ScanError::ConfigurationError,
            r matches Ok(ctx) ==> {
                &&& ctx@.wf()
                &&& ctx@.n == n
                &&& ctx@.max_dim == limits.max_compute_workgroups_per_dimension
            },
    {
        if n > u32::MAX as usize {
            return Err(ScanError::ConfigurationError);
        }
        let max_dim = limits.max_compute_workgroups_per_dimension;
        let mut elms_per_level: Vec<u32> = Vec::new();
        let mut bind_groups_write_sum: Vec<Wiring> = Vec::new();
        let mut level_elms: u32 = n as u32;
        let mut i: usize = 1;
        while level_elms > TILE_SIZE as u32
            invariant
                n <= u32::MAX,
                max_dim == limits.max_compute_workgroups_per_dimension,
                i == elms_per_level@.len() + 1,
                i + level_elms <= n + 1,
                bind_groups_write_sum@.len() == elms_per_level@.len(),
                elms_per_level@ + level_sizes(level_elms) == level_sizes(n as u32),
                forall|j: int|
                    0 <= j < bind_groups_write_sum@.len() ==> (
                    #[trigger] bind_groups_write_sum@[j]).data == j && bind_groups_write_sum@[j].sums
                        == j + 1,
                forall|k: int|
                    0 <= k < elms_per_level@.len() ==> dispatch_fits(
                        workgroups_for(#[trigger] elms_per_level@[k] as int),
                        max_dim as int,
                    ),
            decreases level_elms,
        {
            let w = workgroups_needed(level_elms);
            if try_split_dispatch_3d(w, max_dim).is_err() {
                proof {
                    let all = level_sizes(n as u32);
                    let k = elms_per_level@.len() as int;
                    assert(all[k] == level_sizes(level_elms)[0]);
                }
                return Err(ScanError::ConfigurationError);
            }
            let ghost before = elms_per_level@;
            elms_per_level.push(level_elms);
            let num_blocks: u32 = (level_elms - 1) / (TILE_SIZE as u32) + 1;
            bind_groups_write_sum.push(Wiring { data: i - 1, sums: i });
            proof {
                assert(elms_per_level@ + level_sizes(num_blocks) =~= before + level_sizes(
                    level_elms,
                ));
            }
            level_elms = num_blocks;
            i += 1;
        }
        let w = workgroups_needed(level_elms);
        if try_split_dispatch_3d(w, max_dim).is_err() {
            proof {
                let all = level_sizes(n as u32);
                let k = elms_per_level@.len() as int;
                assert(all[k] == level_sizes(level_elms)[0]);
            }
            return Err(ScanError::ConfigurationError);
        }
        let ghost before = elms_per_level@;
        elms_per_level.push(level_elms);
        proof {
            assert(elms_per_level@ =~= before + level_sizes(level_elms));
        }
        let levels = elms_per_level.len();
        let mut bind_groups_add_carry: Vec<Wiring> = Vec::new();
        let mut level: usize = levels - 1;
        while level >= 1
            invariant
                levels == elms_per_level@.len(),
                0 <= level <= levels - 1,
                bind_groups_add_carry@.len() == levels - 1 - level,
                forall|j: int|
                    0 <= j < bind_groups_add_carry@.len() ==> (
                    #[trigger] bind_groups_add_carry@[j]).data == levels - 2 - j
                        && bind_groups_add_carry@[j].sums == levels - 1 - j,
            decreases level,
        {
            bind_groups_add_carry.push(Wiring { data: level - 1, sums: level });
            level -= 1;
        }
        let ctx = BlockBlellochGpuContext {
            n,
            max_dim,
            elms_per_level,
            bind_groups_write_sum,
            bind_groups_add_carry,
        };
        Ok(ctx)
    }

    /// Number of elements.
    pub fn len(&self) -> (n: usize)
        ensures
            n == self@.n,
    {
        self.n
    }

    /// Number of elements of every level, level 0 first.
    pub fn elms_per_level(&self) -> (levels: &Vec<u32>)
        ensures
            levels@ == self@.levels,
    {
        &self.elms_per_level
    }

    /// Wirings of the scan that writes totals: entry `i` binds level `i` as
    /// data and level `i + 1` as totals.
    pub fn bind_groups_write_sum(&self) -> (w: &Vec<Wiring>)
        ensures
            w@ == self@.write_sum,
    {
        &self.bind_groups_write_sum
    }

    /// Wirings of the carry, from the top of the hierarchy downwards.
    pub fn bind_groups_add_carry(&self) -> (w: &Vec<Wiring>)
        ensures
            w@ == self@.add_carry,
    {
        &self.bind_groups_add_carry
    }

    /// Level of the buffer that the scan of the last level is wired to.
    pub fn bind_group_no_sum(&self) -> (level: usize)
        requires
            self@.wf(),
        ensures
            level == self@.levels.len() - 1,
    {
        proof {
            lemma_level_sizes(self.n as u32);
        }
        self.elms_per_level.len() - 1
    }

    /// Size in bytes of the buffer of level `level`: four bytes per element,
    /// and never an empty buffer.
    pub fn buffer_bytes(&self, level: usize) -> (b: u64)
        requires
            level < self@.levels.len(),
        ensures
            b == if self@.levels[level as int] == 0 { 4 } else { 4 * self@.levels[level as int] },
    {
        let elements = self.elms_per_level[level] as u64;
        if elements == 0 {
            4
        } else {
            elements * 4
        }
    }

    /// Size in bytes of the staging buffer.
    pub fn readback_bytes(&self) -> (b: u64)
        requires
            self@.wf(),
        ensures
            b == 4 * self@.n,
    {
        (self.n as u64) * 4
    }

    /// The bytes to write at the start of the level-0 buffer.
    pub fn upload_data(&self, input: &[u32]) -> (bytes: Vec<u8>)
        ensures
            native_layout(input@, bytes@),
    {
        encode_words(input)
    }

    /// The scanned elements held by the mapped staging range, which must be
    /// as long as the staging buffer.
    pub fn read_computed_data(&self, mapped: &[u8]) -> (r: Result<Vec<u32>, ScanError>)
        ensures
            mapped@.len() == 4 * self@.n ==> r.is_ok(),
            mapped@.len() != 4 * self@.n ==> r is Err && r->Err_0 == ScanError::MappingFailure,
            r matches Ok(words) ==> words@.len() == self@.n && native_layout(words@, mapped@),
    {
        if mapped.len() % 4 != 0 || mapped.len() / 4 != self.n {
            return Err(ScanError::MappingFailure);
        }
        decode_words(mapped)
    }

    /// The grid for a level of `elements` elements.
    fn level_pass(&self, kernel: LevelKernel, bind_group: usize, elements: u32) -> (pass: LevelPass)
        requires
            dispatch_fits(workgroups_for(elements as int), self@.max_dim as int),
        ensures
            pass.kernel == kernel,
            pass.bind_group == bind_group,
            self@.grid_for(pass, elements as int),
    {
        let w = workgroups_needed(elements);
        let shape = split_dispatch_3d(w, self.max_dim);
        proof {
            lemma_grid_covers(elements as int, self.max_dim as int);
        }
        LevelPass { kernel, bind_group, shape }
    }

    /// The dispatches of the scan, in the order in which one compute pass
    /// records them.
    pub fn encode_scan(&self) -> (passes: Vec<LevelPass>)
        requires
            self@.wf(),
        ensures
            passes@.len() == 2 * self@.levels.len() - 1,
            forall|i: int| 0 <= i < passes@.len() ==> self@.is_pass(i, #[trigger] passes@[i]),
    {
        proof {
            lemma_level_sizes(self.n as u32);
        }
        let levels = self.elms_per_level.len();
        let mut passes: Vec<LevelPass> = Vec::new();
        let mut i: usize = 0;
        while i < self.bind_groups_write_sum.len()
            invariant
                self@.wf(),
                levels == self@.levels.len(),
                levels >= 1,
                0 <= i <= levels - 1,
                passes@.len() == i,
                forall|j: int| 0 <= j < passes@.len() ==> self@.is_pass(j, #[trigger] passes@[j]),
            decreases levels - i,
        {
            let pass = self.level_pass(LevelKernel::ScanWriteSum, i, self.elms_per_level[i]);
            passes.push(pass);
            i += 1;
        }
        let last_idx = levels - 1;
        let pass = self.level_pass(LevelKernel::ScanNoSum, 0, self.elms_per_level[last_idx]);
        passes.push(pass);
        let mut level: usize = levels - 1;
        while level >= 1
            invariant
                self@.wf(),
                levels == self@.levels.len(),
                levels >= 1,
                0 <= level <= levels - 1,
                passes@.len() == 2 * levels - 1 - level,
                forall|j: int| 0 <= j < passes@.len() ==> self@.is_pass(j, #[trigger] passes@[j]),
            decreases level,
        {
            let pass = self.level_pass(
                LevelKernel::AddCarry,
                levels - 1 - level,
                self.elms_per_level[level - 1],
            );
            passes.push(pass);
            level -= 1;
        }
        passes
    }

    /// The dispatches of one whole scan, ready to be submitted as a unit.
    pub fn run_prefix_sum(&self) -> (passes: Vec<LevelPass>)
        requires
            self@.wf(),
        ensures
            passes@.len() == 2 * self@.levels.len() - 1,
            forall|i: int| 0 <= i < passes@.len() ==> self@.is_pass(i, #[trigger] passes@[i]),
    {
        self.encode_scan()
    }
    /// Runs the planned dispatches on host memory, one buffer per level wired
    /// as the bind groups are, and returns level 0: the exclusive scan of
    /// `input`.
    pub fn run_on_host(&self, input: &[u32]) -> (out: Vec<u32>)
        requires
            self@.wf(),
            input@.len() == self@.n,
        ensures
            out@ == exclusive_scan(input@),
    {
        let passes = self.encode_scan();
        let levels = self.elms_per_level.len();
        proof {
            lemma_level_sizes(self.n as u32);
        }
        let mut bufs: Vec<Vec<u32>> = Vec::new();
        bufs.push(copy_words(input));
        let mut k: usize = 1;
        while k < levels
            invariant
                levels == self@.levels.len(),
                1 <= k <= levels,
                bufs@.len() == k,
                bufs@[0]@ == input@,
            decreases levels - k,
        {
            bufs.push(zero_words(self.elms_per_level[k] as usize));
            k += 1;
        }
        let mut i: usize = 0;
        while i < levels - 1
            invariant
                self@.wf(),
                input@.len() == self@.n,
                levels == self@.levels.len(),
                levels >= 1,
                0 <= i <= levels - 1,
                bufs@.len() == levels,
                passes@.len() == 2 * levels - 1,
                forall|q: int| 0 <= q < passes@.len() ==> self@.is_pass(q, #[trigger] passes@[q]),
                bufs@[i as int]@ == level_input(input@, i as nat),
                forall|j: int|
                    0 <= j < i ==> (#[trigger] bufs@[j])@ == tile_exclusive(
                        level_input(input@, j as nat),
                    ),
            decreases levels - i,
        {
            let pass = passes[i];
            let wiring = self.bind_groups_write_sum[pass.bind_group];
            let (scanned, sums) = block_scan_write_sum(&bufs[wiring.data]);
            bufs.set(wiring.data, scanned);
            bufs.set(wiring.sums, sums);
            i += 1;
        }
        let last_idx = self.bind_group_no_sum();
        let scanned = block_scan_no_sum(&bufs[last_idx]);
        bufs.set(last_idx, scanned);
        proof {
            lemma_level_input_len(input@, last_idx as nat);
            lemma_single_tile(level_input(input@, last_idx as nat));
        }
        let total = passes.len();
        let mut j: usize = 0;
        while j < levels - 1
            invariant
                total == 2 * levels - 1,
                self@.wf(),
                input@.len() == self@.n,
                levels == self@.levels.len(),
                levels >= 1,
                0 <= j <= levels - 1,
                bufs@.len() == levels,
                passes@.len() == 2 * levels - 1,
                forall|q: int| 0 <= q < passes@.len() ==> self@.is_pass(q, #[trigger] passes@[q]),
                bufs@[levels - 1 - j]@ == exclusive_scan(
                    level_input(input@, (levels - 1 - j) as nat),
                ),
                forall|q: int|
                    0 <= q < levels - 1 - j ==> (#[trigger] bufs@[q])@ == tile_exclusive(
                        level_input(input@, q as nat),
                    ),
            decreases levels - j,
        {
            let pass = passes[levels + j];
            let wiring = self.bind_groups_add_carry[pass.bind_group];
            proof {
                let below = level_input(input@, (levels - 2 - j) as nat);
                lemma_carry(below);
            }
            let carried = add_carry_pass(&bufs[wiring.data], &bufs[wiring.sums]);
            bufs.set(wiring.data, carried);
            j += 1;
        }
        copy_words(bufs[0].as_slice())
    }
}

} // verus!
