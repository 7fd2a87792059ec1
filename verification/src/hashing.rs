//! Hashes of keys and commands.
use crate::types::HashSpec;
use vstd::prelude::*;

verus! {

/// The 128-bit XXH3 hash of a byte sequence.
pub uninterp spec fn xxh3_128_of(bytes: Seq<u8>) -> u128;

/// The 64-bit XXH3 hash of a byte sequence.
pub uninterp spec fn xxh3_64_of(bytes: Seq<u8>) -> u64;

/// `xxhash_rust::xxh3::xxh3_128`: a fixed function of the bytes.
#[verifier::external_body]
pub(crate) fn hash_128(bytes: &[u8]) -> (h: u128)
    ensures
        h == xxh3_128_of(bytes@),
{
    xxhash_rust::xxh3::xxh3_128(bytes)
}

/// `xxhash_rust::xxh3::xxh3_64`: a fixed function of the bytes.
#[verifier::external_body]
fn hash_64(bytes: &[u8]) -> (h: u64)
    ensures
        h == xxh3_64_of(bytes@),
{
    xxhash_rust::xxh3::xxh3_64(bytes)
}

/// The partition that a key hash falls into.
pub fn partition_of_hash(hash: u64, p: u16) -> (partition: u16)
    requires
        p > 0,
    ensures
        partition == hash % (p as u64),
        partition < p,
{
    (hash % (p as u64)) as u16
}

/// The partition that a key belongs to.
pub open spec fn partition_of_key(spec: HashSpec, key: Seq<u8>, p: u16) -> u16 {
    match spec {
        HashSpec::Xxh3 => (xxh3_64_of(key) % (p as u64)) as u16,
    }
}

impl HashSpec {
    /// The partition that a key belongs to.
    pub fn partition_of(&self, key: &[u8], p: u16) -> (partition: u16)
        requires
            p > 0,
        ensures
            partition == partition_of_key(*self, key@, p),
            partition < p,
    {
        partition_of_hash(hash_64(key), p)
    }
}

/// A key's partition is below the partition count and leaves a multiple of it of the
/// key's hash, so it depends on the hash and the count alone.
pub proof fn law_partitions_follow_the_hash(spec: HashSpec, key: Seq<u8>, p: u16)
    requires
        p > 0,
    ensures
        partition_of_key(spec, key, p) < p,
        (xxh3_64_of(key) - partition_of_key(spec, key, p)) % (p as int) == 0,
{
    let h = xxh3_64_of(key) as int;
    let m = p as int;
    assert(0 <= h % m < m && (h - h % m) % m == 0) by (nonlinear_arith)
        requires
            m > 0,
            h >= 0,
    {
        vstd::arithmetic::div_mod::lemma_fundamental_div_mod(h, m);
        vstd::arithmetic::div_mod::lemma_mod_multiples_basic(h / m, m);
        assert(h - h % m == (h / m) * m);
    };
}

} // verus!
