//! The scan variants agree with one another and with the sequential
//! reference, once the inclusive and exclusive conventions are reconciled.

use vstd::prelude::*;
use vstd::arithmetic::power2::pow2;
use crate::blelloch_scan::{blelloch_result, lemma_blelloch_scan};
use crate::block_blelloch_scan::{block_result, lemma_block_result};
use crate::hillis_steele::{hs_after, lemma_hs_scan};
use crate::scan_model::{exclusive_scan, inclusive_scan, lemma_to_inclusive, to_inclusive};
use crate::subgroup_scan::{lemma_subgroup_result, subgroup_result};

verus! {

/// Every variant computes the sequential running sum of its input: the
/// step-efficient scan with enough passes and the subgroup scan give the
/// inclusive scan, the block-recursive scan gives the exclusive scan, and so
/// does the work-efficient scan on a power-of-two size.
pub proof fn lemma_variants_match_reference(s: Seq<u32>, k: nat)
    requires
        pow2(k) >= s.len(),
    ensures
        hs_after(s, k) == inclusive_scan(s),
        subgroup_result(s) == inclusive_scan(s),
        block_result(s) == exclusive_scan(s),
        s.len() == pow2(k) ==> blelloch_result(s, k) == exclusive_scan(s),
{
    lemma_hs_scan(s, k);
    lemma_subgroup_result(s);
    lemma_block_result(s);
    if s.len() == pow2(k) {
        lemma_blelloch_scan(s, k);
    }
}

/// The step-efficient scan and the subgroup scan are the block-recursive
/// scan converted to the inclusive convention, and on a power-of-two size
/// the work-efficient scan equals the block-recursive scan.
pub proof fn lemma_variants_agree(s: Seq<u32>, k: nat)
    requires
        pow2(k) >= s.len(),
    ensures
        hs_after(s, k) == to_inclusive(block_result(s), s),
        subgroup_result(s) == to_inclusive(block_result(s), s),
        s.len() == pow2(k) ==> blelloch_result(s, k) == block_result(s),
        s.len() == pow2(k) ==> hs_after(s, k) == to_inclusive(blelloch_result(s, k), s),
{
    lemma_variants_match_reference(s, k);
    lemma_to_inclusive(s);
}

} // verus!
