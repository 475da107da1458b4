//! Values shared by host and kernels: the byte image of 32-bit words as it
//! crosses the bus, and the number of passes that a scan takes.

use vstd::prelude::*;
use crate::error::ScanError;

verus! {

/// Bytes in one 32-bit element.
pub const WORD_BYTES: usize = 4;

/// Bytes in one parameter record: the step and three words of padding.
pub const RECORD_BYTES: usize = 16;

/// The four bytes of `w`, least significant first.
pub open spec fn le_bytes(w: u32) -> Seq<u8> {
    seq![
        (w % 256) as u8,
        ((w / 256) % 256) as u8,
        ((w / 65536) % 256) as u8,
        (w / 16777216) as u8,
    ]
}

/// The four bytes of `w`, most significant first.
pub open spec fn be_bytes(w: u32) -> Seq<u8> {
    seq![
        (w / 16777216) as u8,
        ((w / 65536) % 256) as u8,
        ((w / 256) % 256) as u8,
        (w % 256) as u8,
    ]
}

/// `bytes` holds the words of `words` in order, each least significant byte first.
pub open spec fn little_endian_layout(words: Seq<u32>, bytes: Seq<u8>) -> bool {
    &&& bytes.len() == 4 * words.len()
    &&& forall|i: int| 0 <= i < words.len() ==> #[trigger] bytes.subrange(4 * i, 4 * i + 4) == le_bytes(words[i])
}

/// `bytes` holds the words of `words` in order, each most significant byte first.
pub open spec fn big_endian_layout(words: Seq<u32>, bytes: Seq<u8>) -> bool {
    &&& bytes.len() == 4 * words.len()
    &&& forall|i: int| 0 <= i < words.len() ==> #[trigger] bytes.subrange(4 * i, 4 * i + 4) == be_bytes(words[i])
}

/// `bytes` is the in-memory image of `words` on this machine: four bytes per
/// word, all words in the same byte order.
pub open spec fn native_layout(words: Seq<u32>, bytes: Seq<u8>) -> bool {
    little_endian_layout(words, bytes) || big_endian_layout(words, bytes)
}

/// The words of the parameter record for one pass.
pub open spec fn record_words(step: u32) -> Seq<u32> {
    seq![step, 0u32, 0u32, 0u32]
}

/// Calls `bytemuck::cast_slice` from `u32` to `u8` and copies the result. The
/// contract claims that the bytes are the in-memory image of the words: four
/// per word, in the machine's byte order. Unproved.
#[verifier::external_body]
fn cast_words(words: &[u32]) -> (bytes: Vec<u8>)
    ensures
        native_layout(words@, bytes@),
{
    bytemuck::cast_slice::<u32, u8>(words).to_vec()
}

/// Calls `bytemuck::bytes_of` on a record of four words and copies the
/// result. The contract claims that the sixteen bytes are the in-memory image
/// of the four words, in the machine's byte order. Unproved.
#[verifier::external_body]
pub(crate) fn record_image_of(record: &[u32; 4]) -> (bytes: Vec<u8>)
    ensures
        native_layout(record@, bytes@),
{
    bytemuck::bytes_of(record).to_vec()
}

/// Calls `bytemuck::pod_collect_to_vec` from `u8` to `u32`, which copies
/// the bytes into a fresh, aligned vector of words. The contract claims, for
/// a byte count that is a multiple of four, that the bytes are the in-memory
/// image of the words returned, in the machine's byte order. Unproved.
#[verifier::external_body]
fn collect_words(bytes: &[u8]) -> (words: Vec<u32>)
    requires
        bytes@.len() % 4 == 0,
    ensures
        native_layout(words@, bytes@),
{
    bytemuck::pod_collect_to_vec::<u8, u32>(bytes)
}

/// The byte image of `input` as it is written into a device buffer.
pub fn encode_words(input: &[u32]) -> (bytes: Vec<u8>)
    ensures
        native_layout(input@, bytes@),
{
    cast_words(input)
}

/// The words held by a mapped byte range. The range must hold whole words;
/// otherwise the readback is reported as failed.
pub fn decode_words(bytes: &[u8]) -> (r: Result<Vec<u32>, ScanError>)
    ensures
        bytes@.len() % 4 == 0 ==> r.is_ok(),
        bytes@.len() % 4 != 0 ==> r == Err::<Vec<u32>, ScanError>(ScanError::MappingFailure),
        r matches Ok(words) ==> native_layout(words@, bytes@),
{
    if bytes.len() % WORD_BYTES != 0 {
        return Err(ScanError::MappingFailure);
    }
    Ok(collect_words(bytes))
}

/// A copy of `words` in a buffer of its own.
pub fn copy_words(words: &[u32]) -> (v: Vec<u32>)
    ensures
        v@ == words@,
{
    let mut v: Vec<u32> = Vec::new();
    let mut i: usize = 0;
    while i < words.len()
        invariant
            0 <= i <= words@.len(),
            v@ == words@.subrange(0, i as int),
        decreases words@.len() - i,
    {
        v.push(words[i]);
        i += 1;
    }
    v
}

/// A buffer of `len` zero words, as a device hands out a fresh buffer.
pub fn zero_words(len: usize) -> (v: Vec<u32>)
    ensures
        v@.len() == len,
        forall|i: int| 0 <= i < len ==> v@[i] == 0,
{
    let mut v: Vec<u32> = Vec::new();
    let mut i: usize = 0;
    while i < len
        invariant
            0 <= i <= len,
            v@.len() == i,
            forall|j: int| 0 <= j < i ==> v@[j] == 0,
        decreases len - i,
    {
        v.push(0u32);
        i += 1;
    }
    v
}

/// `k` is the number of doublings that reach `n` from one: the least `k` with
/// `2^k >= n`.
pub open spec fn is_ceil_log2(n: int, k: nat) -> bool {
    &&& vstd::arithmetic::power2::pow2(k) >= n
    &&& k > 0 ==> vstd::arithmetic::power2::pow2((k - 1) as nat) < n
}

/// Only one number is the ceiling of the binary logarithm of `n`.
pub proof fn lemma_ceil_log2_unique(n: int, k1: nat, k2: nat)
    requires
        is_ceil_log2(n, k1),
        is_ceil_log2(n, k2),
    ensures
        k1 == k2,
{
    if k1 < k2 {
        if k1 < k2 - 1 {
            vstd::arithmetic::power2::lemma_pow2_strictly_increases(k1, (k2 - 1) as nat);
        }
    } else if k2 < k1 {
        if k2 < k1 - 1 {
            vstd::arithmetic::power2::lemma_pow2_strictly_increases(k2, (k1 - 1) as nat);
        }
    }
}

/// The ceiling of the binary logarithm of `n`, and zero for `n` below two:
/// halving `n`, rounding up, until one is left.
pub open spec fn log2_ceil(n: int) -> nat
    decreases n,
{
    if n <= 1 {
        0
    } else {
        1 + log2_ceil((n + 1) / 2)
    }
}

/// `log2_ceil(n)` is the least `k` with `2^k >= n`.
pub proof fn lemma_log2_ceil(n: int)
    ensures
        is_ceil_log2(n, log2_ceil(n)),
    decreases n,
{
    vstd::arithmetic::power2::lemma2_to64();
    if n > 1 {
        let m = (n + 1) / 2;
        lemma_log2_ceil(m);
        let k = log2_ceil(m);
        vstd::arithmetic::power2::lemma_pow2_unfold(k + 1);
        if k > 0 {
            vstd::arithmetic::power2::lemma_pow2_unfold(k);
        }
    }
}

/// The number of passes a scan of `n` elements takes, together with the
/// power of two that the passes reach.
pub fn ceil_log2_power(n: usize) -> (r: (u32, u128))
    ensures
        r.0 == log2_ceil(n as int),
        r.1 == vstd::arithmetic::power2::pow2(r.0 as nat),
        is_ceil_log2(n as int, r.0 as nat),
        r.0 <= 64,
{
    let mut k: u32 = 0;
    let mut p: u128 = 1;
    proof {
        vstd::arithmetic::power2::lemma2_to64();
    }
    while p < n as u128
        invariant
            p == vstd::arithmetic::power2::pow2(k as nat),
            k <= 64,
            k > 0 ==> vstd::arithmetic::power2::pow2((k - 1) as nat) < n,
            1 <= p <= 0x1_0000_0000_0000_0000,
        decreases 0x1_0000_0000_0000_0000 - p,
    {
        proof {
            vstd::arithmetic::power2::lemma_pow2_unfold((k + 1) as nat);
            if k >= 64 {
                vstd::arithmetic::power2::lemma2_to64_rest();
                assert(false);
            }
            if k < 63 {
                vstd::arithmetic::power2::lemma_pow2_strictly_increases((k + 1) as nat, 64);
            }
            vstd::arithmetic::power2::lemma2_to64_rest();
        }
        p = p * 2;
        k = k + 1;
    }
    proof {
        lemma_log2_ceil(n as int);
        lemma_ceil_log2_unique(n as int, k as nat, log2_ceil(n as int));
    }
    (k, p)
}

/// The number of passes a scan of `n` elements takes: `ceil(log2(n))`, and
/// zero for `n` of zero or one.
pub fn ceil_log2(n: usize) -> (k: u32)
    ensures
        k == log2_ceil(n as int),
        is_ceil_log2(n as int, k as nat),
        k <= 64,
{
    ceil_log2_power(n).0
}

} // verus!
