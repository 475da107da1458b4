//! Dispatch sizing: mapping a count of workgroups onto a three-dimensional
//! grid whose every dimension is bounded by the device.

use vstd::prelude::*;
use crate::error::ScanError;

verus! {

/// Number of invocations that one workgroup of every kernel runs.
pub const WG_SIZE: u32 = 64;

/// `ceil(a / b)` for `b > 0`.
pub open spec fn ceil_div(a: int, b: int) -> int {
    (a + b - 1) / b
}

/// The smaller of two integers.
pub open spec fn min_of(a: int, b: int) -> int {
    if a <= b { a } else { b }
}

/// First coordinate of the greedy split: as much of `w` as one dimension takes.
pub open spec fn dispatch_x(w: int, m: int) -> int {
    min_of(w, m)
}

/// Second coordinate: what is left after the first, again capped at `m`.
pub open spec fn dispatch_y(w: int, m: int) -> int {
    min_of(ceil_div(w, dispatch_x(w, m)), m)
}

/// Third coordinate: what is left after the first two.
pub open spec fn dispatch_z(w: int, m: int) -> int {
    ceil_div(w, dispatch_x(w, m) * dispatch_y(w, m))
}

/// A request that a grid bounded by `m` per dimension can serve.
pub open spec fn dispatch_fits(w: int, m: int) -> bool {
    1 <= w && 1 <= m && w <= m * m * m
}

/// For `b > 0` and `a >= 1`, `ceil_div(a, b)` is the least `c` with `c * b >= a`.
pub proof fn lemma_ceil_div(a: int, b: int)
    requires
        a >= 1,
        b >= 1,
    ensures
        ceil_div(a, b) >= 1,
        ceil_div(a, b) * b >= a,
        (ceil_div(a, b) - 1) * b < a,
        a <= b ==> ceil_div(a, b) == 1,
{
    let c = ceil_div(a, b);
    vstd::arithmetic::div_mod::lemma_fundamental_div_mod(a + b - 1, b);
    vstd::arithmetic::div_mod::lemma_mod_bound(a + b - 1, b);
    let r = (a + b - 1) % b;
    assert(b * c == c * b) by (nonlinear_arith);
    assert((c - 1) * b == c * b - b) by (nonlinear_arith);
    if c <= 0 {
        assert(c * b <= 0) by (nonlinear_arith)
            requires c <= 0, b >= 1;
    }
    if a <= b && c >= 2 {
        assert(c * b >= 2 * b) by (nonlinear_arith)
            requires c >= 2, b >= 1;
    }
}

/// `ceil_div` is monotone in its numerator and never exceeds `k` when `a <= k * b`.
pub proof fn lemma_ceil_div_bound(a: int, b: int, k: int)
    requires
        a >= 1,
        b >= 1,
        a <= k * b,
    ensures
        ceil_div(a, b) <= k,
{
    lemma_ceil_div(a, b);
    let c = ceil_div(a, b);
    if c > k {
        assert((c - 1) * b >= k * b) by (nonlinear_arith)
            requires c - 1 >= k, b >= 1;
    }
}

/// Dispatch sizing is sound and tight: the grid covers the request, every
/// coordinate lies between 1 and the device bound, a request that fits in one
/// dimension is served by `(w, 1, 1)`, and the grid with one layer less in
/// the third dimension would no longer cover the request.
pub proof fn lemma_dispatch_shape(w: int, m: int)
    requires
        dispatch_fits(w, m),
    ensures
        dispatch_x(w, m) * dispatch_y(w, m) * dispatch_z(w, m) >= w,
        1 <= dispatch_x(w, m) <= m,
        1 <= dispatch_y(w, m) <= m,
        1 <= dispatch_z(w, m) <= m,
        w <= m ==> dispatch_x(w, m) == w && dispatch_y(w, m) == 1 && dispatch_z(w, m) == 1,
        dispatch_x(w, m) * dispatch_y(w, m) * (dispatch_z(w, m) - 1) < w,
{
    let x = dispatch_x(w, m);
    let y = dispatch_y(w, m);
    let z = dispatch_z(w, m);
    lemma_ceil_div(w, x);
    assert(x * y >= 1) by (nonlinear_arith)
        requires x >= 1, y >= 1;
    lemma_ceil_div(w, x * y);
    assert(x * y * (z - 1) == (z - 1) * (x * y)) by (nonlinear_arith);
    assert(x * y * z == z * (x * y)) by (nonlinear_arith);
    if w <= m {
        assert(x * y == w) by (nonlinear_arith)
            requires x == w, y == 1;
    } else {
        if ceil_div(w, x) <= m {
            assert(x * y == y * x) by (nonlinear_arith);
        } else {
            assert(w <= m * (x * y)) by (nonlinear_arith)
                requires w <= m * m * m, x == m, y == m;
            lemma_ceil_div_bound(w, x * y, m);
        }
    }
}

/// A request beyond `m * m * m` leaves a third coordinate above `m`.
pub proof fn lemma_dispatch_overflow(w: int, m: int)
    requires
        1 <= w,
        1 <= m,
        w > m * m * m,
    ensures
        dispatch_z(w, m) > m,
        dispatch_x(w, m) == m,
        dispatch_y(w, m) == m,
{
    assert(m * m * m >= m * m && m * m >= m) by (nonlinear_arith)
        requires m >= 1;
    let x = dispatch_x(w, m);
    lemma_ceil_div(w, x);
    if ceil_div(w, x) < m {
        assert(ceil_div(w, x) * x <= m * m) by (nonlinear_arith)
            requires ceil_div(w, x) < m, x == m, m >= 1;
    }
    let y = dispatch_y(w, m);
    assert(x * y >= 1) by (nonlinear_arith)
        requires x >= 1, y >= 1;
    lemma_ceil_div(w, x * y);
    if dispatch_z(w, m) <= m {
        assert(dispatch_z(w, m) * (x * y) <= m * m * m) by (nonlinear_arith)
            requires dispatch_z(w, m) <= m, x == m, y == m, m >= 1;
    }
}

/// The greedy split itself, widened to 64 bits so that no intermediate
/// overflows: the third coordinate may exceed `max_dim`.
fn greedy_split(workgroups_needed: u32, max_dim: u32) -> (r: (u64, u64, u64))
    requires
        workgroups_needed >= 1,
        max_dim >= 1,
    ensures
        r.0 == dispatch_x(workgroups_needed as int, max_dim as int),
        r.1 == dispatch_y(workgroups_needed as int, max_dim as int),
        r.2 == dispatch_z(workgroups_needed as int, max_dim as int),
        1 <= r.0 <= max_dim,
        1 <= r.1 <= max_dim,
{
    let w: u64 = workgroups_needed as u64;
    let m: u64 = max_dim as u64;
    let x: u64 = if w <= m { w } else { m };
    let remaining_after_x: u64 = (w + x - 1) / x;
    let y: u64 = if remaining_after_x <= m { remaining_after_x } else { m };
    proof {
        lemma_ceil_div(w as int, x as int);
        assert(x * y <= 0xffff_ffff * 0xffff_ffff) by (nonlinear_arith)
            requires 0 <= x <= 0xffff_ffff, 0 <= y <= 0xffff_ffff;
        assert(x * y >= 1) by (nonlinear_arith)
            requires x >= 1, y >= 1;
    }
    let xy: u64 = x * y;
    let z: u64 = (w + xy - 1) / xy;
    (x, y, z)
}

/// Splits `workgroups_needed` workgroups greedily over three dimensions of at
/// most `max_dim` each, or reports a configuration error when the request is
/// empty or exceeds `max_dim` cubed.
pub fn try_split_dispatch_3d(workgroups_needed: u32, max_dim: u32) -> (r: Result<[u32; 3], ScanError>)
    ensures
        dispatch_fits(workgroups_needed as int, max_dim as int) ==> r.is_ok(),
        !dispatch_fits(workgroups_needed as int, max_dim as int) ==> r == Err::<[u32; 3], ScanError>(
            ScanError::ConfigurationError,
        ),
        r matches Ok(shape) ==> {
            &&& shape[0] == dispatch_x(workgroups_needed as int, max_dim as int)
            &&& shape[1] == dispatch_y(workgroups_needed as int, max_dim as int)
            &&& shape[2] == dispatch_z(workgroups_needed as int, max_dim as int)
        },
{
    if workgroups_needed == 0 || max_dim == 0 {
        return Err(ScanError::ConfigurationError);
    }
    let (x, y, z) = greedy_split(workgroups_needed, max_dim);
    proof {
        if dispatch_fits(workgroups_needed as int, max_dim as int) {
            lemma_dispatch_shape(workgroups_needed as int, max_dim as int);
        } else {
            lemma_dispatch_overflow(workgroups_needed as int, max_dim as int);
        }
    }
    if z > max_dim as u64 {
        return Err(ScanError::ConfigurationError);
    }
    Ok([x as u32, y as u32, z as u32])
}

/// Splits `workgroups_needed` workgroups greedily over three dimensions of at
/// most `max_dim` each: the first dimension is filled first, then the second,
/// then the third.
pub fn split_dispatch_3d(workgroups_needed: u32, max_dim: u32) -> (shape: [u32; 3])
    requires
        dispatch_fits(workgroups_needed as int, max_dim as int),
    ensures
        shape[0] == dispatch_x(workgroups_needed as int, max_dim as int),
        shape[1] == dispatch_y(workgroups_needed as int, max_dim as int),
        shape[2] == dispatch_z(workgroups_needed as int, max_dim as int),
        shape[0] * shape[1] * shape[2] >= workgroups_needed,
        1 <= shape[0] <= max_dim,
        1 <= shape[1] <= max_dim,
        1 <= shape[2] <= max_dim,
        workgroups_needed <= max_dim ==> shape[0] == workgroups_needed && shape[1] == 1
            && shape[2] == 1,
{
    proof {
        lemma_dispatch_shape(workgroups_needed as int, max_dim as int);
    }
    let (x, y, z) = greedy_split(workgroups_needed, max_dim);
    [x as u32, y as u32, z as u32]
}

/// Workgroups that cover `active` elements at `WG_SIZE` per workgroup, never
/// fewer than one.
pub open spec fn workgroups_for(active: int) -> int {
    if ceil_div(active, WG_SIZE as int) >= 1 { ceil_div(active, WG_SIZE as int) } else { 1 }
}

/// Computes `workgroups_for`: `ceil(active / WG_SIZE)`, raised to one.
pub fn workgroups_needed(active: u32) -> (w: u32)
    ensures
        w == workgroups_for(active as int),
        w >= 1,
        w * WG_SIZE >= active,
{
    let full: u32 = active / WG_SIZE;
    let w: u32 = if active % WG_SIZE == 0 { full } else { full + 1 };
    proof {
        assert(ceil_div(active as int, 64) == w as int) by {
            vstd::arithmetic::div_mod::lemma_fundamental_div_mod(active as int, 64);
            vstd::arithmetic::div_mod::lemma_fundamental_div_mod(active as int + 63, 64);
        }
    }
    if w == 0 { 1 } else { w }
}

} // verus!
