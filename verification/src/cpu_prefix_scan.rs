//! Sequential scan on the host: the oracle that every device variant is
//! measured against.

use vstd::prelude::*;
use crate::scan_model::{inclusive_scan, sum_range, wrap, lemma_wrap_add_word, lemma_wrap_word};

verus! {

/// Inclusive running sum of `data`, one pass from left to right, with
/// addition modulo 2^32. An empty input gives an empty output.
pub fn cpu_prefix_sum(data: &[u32]) -> (res: Vec<u32>)
    ensures
        res@ == inclusive_scan(data@),
{
    let n = data.len();
    let mut res: Vec<u32> = Vec::new();
    let mut acc: u32 = 0;
    let mut i: usize = 0;
    proof {
        lemma_wrap_word(0);
    }
    while i < n
        invariant
            n == data@.len(),
            0 <= i <= n,
            res@.len() == i,
            acc == wrap(sum_range(data@, 0, i as int)),
            forall|j: int| 0 <= j < i ==> res@[j] == wrap(sum_range(data@, 0, j + 1)),
        decreases n - i,
    {
        proof {
            lemma_wrap_add_word(sum_range(data@, 0, i as int), data@[i as int]);
            crate::scan_model::lemma_wadd_is_wrapping(acc, data@[i as int]);
        }
        acc = acc.wrapping_add(data[i]);
        res.push(acc);
        i += 1;
    }
    assert(res@ =~= inclusive_scan(data@));
    res
}

} // verus!
