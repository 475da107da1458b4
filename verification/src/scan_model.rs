//! The mathematical meaning of a scan over 32-bit words.
//!
//! Sums are taken over the integers and then reduced modulo 2^32, which is
//! what both the host reference and the device kernels compute.

use vstd::prelude::*;

verus! {

/// Sum of `s[lo..hi]` over the integers; zero for an empty range.
pub open spec fn sum_range(s: Seq<u32>, lo: int, hi: int) -> int
    decreases hi - lo,
{
    if hi <= lo {
        0
    } else {
        sum_range(s, lo, hi - 1) + s[hi - 1]
    }
}

/// Reduction of an integer to a 32-bit word.
pub open spec fn wrap(x: int) -> u32 {
    (x % 0x1_0000_0000) as u32
}

/// Addition of two words modulo 2^32.
pub open spec fn wadd(a: u32, b: u32) -> u32 {
    wrap(a + b)
}

/// Inclusive scan: element `i` is the sum of `s[0..=i]`.
pub open spec fn inclusive_scan(s: Seq<u32>) -> Seq<u32> {
    Seq::new(s.len(), |i: int| wrap(sum_range(s, 0, i + 1)))
}

/// Exclusive scan: element `i` is the sum of `s[0..i]`.
pub open spec fn exclusive_scan(s: Seq<u32>) -> Seq<u32> {
    Seq::new(s.len(), |i: int| wrap(sum_range(s, 0, i)))
}

/// A word is its own reduction.
pub proof fn lemma_wrap_word(x: u32)
    ensures
        wrap(x as int) == x,
{
    vstd::arithmetic::div_mod::lemma_small_mod(x as nat, 0x1_0000_0000);
}

/// Reduction commutes with addition.
pub proof fn lemma_wrap_add(a: int, b: int)
    ensures
        wadd(wrap(a), wrap(b)) == wrap(a + b),
        wadd(wrap(a), wrap(b)) == vstd::wrapping::u32_specs::wrapping_add(wrap(a), wrap(b)),
{
    vstd::arithmetic::div_mod::lemma_add_mod_noop(a, b, 0x1_0000_0000);
    vstd::arithmetic::div_mod::lemma_mod_bound(a, 0x1_0000_0000);
    vstd::arithmetic::div_mod::lemma_mod_bound(b, 0x1_0000_0000);
    lemma_wadd_is_wrapping(wrap(a), wrap(b));
}

/// `wadd` is the wrapping addition of the machine.
pub proof fn lemma_wadd_is_wrapping(a: u32, b: u32)
    ensures
        wadd(a, b) == vstd::wrapping::u32_specs::wrapping_add(a, b),
{
    let s = a + b;
    if s > u32::MAX {
        vstd::arithmetic::div_mod::lemma_mod_sub_multiples_vanish(s, 0x1_0000_0000);
        vstd::arithmetic::div_mod::lemma_small_mod((s - 0x1_0000_0000) as nat, 0x1_0000_0000);
    } else {
        vstd::arithmetic::div_mod::lemma_small_mod(s as nat, 0x1_0000_0000);
    }
}

/// Adding a word to a reduced sum reduces the extended sum.
pub proof fn lemma_wrap_add_word(a: int, b: u32)
    ensures
        wadd(wrap(a), b) == wrap(a + b),
{
    lemma_wrap_word(b);
    lemma_wrap_add(a, b as int);
}

/// A range splits at any point inside it.
pub proof fn lemma_sum_split(s: Seq<u32>, lo: int, mid: int, hi: int)
    requires
        lo <= mid <= hi,
    ensures
        sum_range(s, lo, hi) == sum_range(s, lo, mid) + sum_range(s, mid, hi),
    decreases hi - mid,
{
    if mid < hi {
        lemma_sum_split(s, lo, mid, hi - 1);
    }
}

/// The two conventions differ by the element itself: the inclusive scan at `i`
/// is the exclusive scan at `i` plus `s[i]`, and the exclusive scan starts at
/// zero and continues with the inclusive scan shifted by one.
pub proof fn lemma_inclusive_from_exclusive(s: Seq<u32>, i: int)
    requires
        0 <= i < s.len(),
    ensures
        inclusive_scan(s)[i] == wadd(exclusive_scan(s)[i], s[i]),
        i == 0 ==> exclusive_scan(s)[i] == 0,
        i > 0 ==> exclusive_scan(s)[i] == inclusive_scan(s)[i - 1],
{
    lemma_wrap_add_word(sum_range(s, 0, i), s[i]);
}

/// The inclusive scan that belongs to an exclusive scan `excl` of `s`: every
/// element of `excl` with its own element of `s` added.
pub open spec fn to_inclusive(excl: Seq<u32>, s: Seq<u32>) -> Seq<u32> {
    Seq::new(s.len(), |i: int| wadd(excl[i], s[i]))
}

/// Converting the exclusive scan gives the inclusive scan.
pub proof fn lemma_to_inclusive(s: Seq<u32>)
    ensures
        to_inclusive(exclusive_scan(s), s) == inclusive_scan(s),
{
    assert forall|i: int| 0 <= i < s.len() implies to_inclusive(exclusive_scan(s), s)[i]
        == inclusive_scan(s)[i] by {
        lemma_inclusive_from_exclusive(s, i);
    }
}

/// Converts an exclusive scan of `input` into the inclusive scan by adding
/// every input element to its scanned element.
pub fn exclusive_to_inclusive(scanned: &[u32], input: &[u32]) -> (out: Vec<u32>)
    requires
        scanned@.len() == input@.len(),
    ensures
        out@ == to_inclusive(scanned@, input@),
        scanned@ == exclusive_scan(input@) ==> out@ == inclusive_scan(input@),
{
    let n = input.len();
    let mut out: Vec<u32> = Vec::new();
    let mut i: usize = 0;
    while i < n
        invariant
            n == input@.len(),
            n == scanned@.len(),
            0 <= i <= n,
            out@.len() == i,
            forall|j: int| 0 <= j < i ==> out@[j] == wadd(scanned@[j], input@[j]),
        decreases n - i,
    {
        proof {
            lemma_wadd_is_wrapping(scanned@[i as int], input@[i as int]);
        }
        out.push(scanned[i].wrapping_add(input[i]));
        i += 1;
    }
    proof {
        lemma_to_inclusive(input@);
    }
    out
}

} // verus!
