//! A deterministic stand-in for a text embedding model.
use vstd::prelude::*;
use rand::{Rng, SeedableRng};
use crate::security::cryptography::{hash_data, sha256_of};

verus! {

/// Number of components of every embedding.
pub const EMBEDDING_DIMENSION: usize = 384;

/// Components are fixed-point numbers in units of `2^-24`, drawn from
/// `[-COMPONENT_HALF_RANGE, COMPONENT_HALF_RANGE)`, that is from `[-0.5, 0.5)`.
pub const COMPONENT_HALF_RANGE: i32 = 8_388_608;

/// The `count` draws from `[lo, hi)` of the standard generator seeded with `seed`.
pub uninterp spec fn seeded_uniform(seed: u64, count: nat, lo: int, hi: int) -> Seq<i32>;

/// Draws `count` integers uniformly from `[lo, hi)`.
///
/// Relies on `rand::rngs::StdRng::seed_from_u64` and `Rng::gen_range` (rand 0.8):
/// the draws depend on the seed alone, each lies in the range, and `gen_range`
/// panics only on an empty range.
#[verifier::external_body]
fn seeded_samples(seed: u64, count: usize, lo: i32, hi: i32) -> (r: Vec<i32>)
    requires
        lo < hi,
    ensures
        r@ == seeded_uniform(seed, count as nat, lo as int, hi as int),
        r@.len() == count,
        forall|i: int| 0 <= i < r@.len() ==> lo <= #[trigger] r@[i] < hi,
{
    let mut rng = rand::rngs::StdRng::seed_from_u64(seed);
    (0..count).map(|_| rng.gen_range(lo..hi)).collect()
}

/// Little-endian value of `b`.
pub open spec fn le_value(b: Seq<u8>) -> int
    decreases b.len(),
{
    if b.len() == 0 {
        0
    } else {
        b[0] + 256 * le_value(b.drop_first())
    }
}

/// The seed of a text: its digest's first eight bytes, little-endian.
pub open spec fn seed_of(text: Seq<char>) -> int {
    le_value(sha256_of(encode_utf8_of(text)).subrange(0, 8))
}

/// The UTF-8 bytes of `text`.
pub open spec fn encode_utf8_of(text: Seq<char>) -> Seq<u8> {
    vstd::utf8::encode_utf8(text)
}

/// The embedding of `text`.
pub open spec fn embedding_of(text: Seq<char>) -> Seq<i32> {
    seeded_uniform(
        seed_of(text) as u64,
        EMBEDDING_DIMENSION as nat,
        -COMPONENT_HALF_RANGE as int,
        COMPONENT_HALF_RANGE as int,
    )
}

/// The integer that the first eight bytes of `b` hold, little-endian.
fn le_u64(b: &Vec<u8>) -> (r: u64)
    requires
        b@.len() >= 8,
    ensures
        r == le_value(b@.subrange(0, 8)),
{
    let mut acc: u64 = 0;
    let mut i: usize = 8;
    while i > 0
        invariant
            i <= 8 <= b@.len(),
            acc == le_value(b@.subrange(i as int, 8)),
            acc < pow256((8 - i) as nat),
        decreases i,
    {
        i -= 1;
        let ghost s = b@.subrange(i as int, 8);
        assert(s.drop_first() =~= b@.subrange(i + 1, 8));
        assert(pow256((8 - i) as nat) == 256 * pow256((8 - i - 1) as nat));
        assert(pow256((8 - i) as nat) <= pow256(8)) by {
            reveal_with_fuel(pow256, 9);
        }
        assert(pow256(8) == 0x1_0000_0000_0000_0000) by {
            reveal_with_fuel(pow256, 9);
        }
        acc = b[i] as u64 + 256 * acc;
    }
    acc
}

pub open spec fn pow256(n: nat) -> int
    decreases n,
{
    if n == 0 {
        1
    } else {
        256 * pow256((n - 1) as nat)
    }
}

/// A stable embedding model: equal texts get equal vectors, in every process.
pub struct EmbeddingModel;

impl EmbeddingModel {
    pub fn new() -> (r: Self) {
        EmbeddingModel
    }

    /// The embedding of `text`: `EMBEDDING_DIMENSION` draws from
    /// `[-COMPONENT_HALF_RANGE, COMPONENT_HALF_RANGE)` of the generator seeded
    /// with the first eight bytes of the text's SHA-256 digest.
    pub fn embed_text(&self, text: &str) -> (r: Vec<i32>)
        ensures
            r@ == embedding_of(text@),
            r@.len() == EMBEDDING_DIMENSION,
            forall|i: int|
                0 <= i < r@.len() ==> -COMPONENT_HALF_RANGE <= #[trigger] r@[i]
                    < COMPONENT_HALF_RANGE,
    {
        let digest = hash_data(text.as_bytes());
        let seed = le_u64(&digest);
        seeded_samples(seed, EMBEDDING_DIMENSION, -COMPONENT_HALF_RANGE, COMPONENT_HALF_RANGE)
    }
}

/// Embedding is a function of the text alone: the same text gives the same vector.
pub proof fn lemma_embedding_deterministic(a: Seq<char>, b: Seq<char>)
    requires
        a == b,
    ensures
        embedding_of(a) == embedding_of(b),
{
}

} // verus!
