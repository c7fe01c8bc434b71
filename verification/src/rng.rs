//! Trusted boundary to the seeded random number generator and the
//! non-cryptographic hash the world builders draw from.
//!
//! The generator is an opaque seeded stream: the range wrappers state
//! only the interval each draw lands in, not which value comes out, so
//! contracts cannot pin two same-seed runs of placement or treasure
//! scattering to identical draws (the seeded tests witness that they
//! are). Results that are pure functions of their inputs — the hash,
//! and the sub-seed derivations built on it — are pinned by name.

use vstd::prelude::*;

verus! {

#[verifier::external_type_specification]
#[verifier::external_body]
pub struct ExWyRand(wyrand::WyRand);

/// What the xxh3 hash yields on a byte string: a pure function of the
/// bytes.
pub uninterp spec fn xxh3_of(bytes: Seq<u8>) -> u64;

/// Relies on `xxhash_rust::xxh3::xxh3_64`: a 64-bit digest depending on
/// the input bytes alone.
#[verifier::external_body]
pub(crate) fn xxh3(data: &Vec<u8>) -> (r: u64)
    ensures
        r == xxh3_of(data@),
{
    xxhash_rust::xxh3::xxh3_64(data.as_slice())
}

/// The little-endian bytes of a 32-bit seed.
pub open spec fn u32_le_bytes(v: u32) -> Seq<u8> {
    seq![v as u8, (v >> 8u32) as u8, (v >> 16u32) as u8, (v >> 24u32) as u8]
}

/// The placement sub-seed: the xxh3 digest of the world seed's
/// little-endian bytes.
pub fn derive_placement_seed(seed: u32) -> (r: u64)
    ensures
        r == xxh3_of(u32_le_bytes(seed)),
{
    let mut bytes: Vec<u8> = Vec::new();
    bytes.push(#[verifier::truncate] (seed as u8));
    bytes.push(#[verifier::truncate] ((seed >> 8u32) as u8));
    bytes.push(#[verifier::truncate] ((seed >> 16u32) as u8));
    bytes.push((seed >> 24u32) as u8);
    proof {
        assert(bytes@ =~= u32_le_bytes(seed));
    }
    xxh3(&bytes)
}

/// The little-endian bytes of a 64-bit identity.
pub open spec fn u64_le_bytes(v: u64) -> Seq<u8> {
    seq![
        v as u8,
        (v >> 8u64) as u8,
        (v >> 16u64) as u8,
        (v >> 24u64) as u8,
        (v >> 32u64) as u8,
        (v >> 40u64) as u8,
        (v >> 48u64) as u8,
        (v >> 56u64) as u8,
    ]
}

/// The collision tie-break hash of an entity identity: the xxh3
/// digest of its little-endian bytes, stable from tick to tick.
pub fn entity_hash(id: u64) -> (r: u64)
    ensures
        r == xxh3_of(u64_le_bytes(id)),
{
    let mut bytes: Vec<u8> = Vec::new();
    bytes.push(#[verifier::truncate] (id as u8));
    bytes.push(#[verifier::truncate] ((id >> 8u64) as u8));
    bytes.push(#[verifier::truncate] ((id >> 16u64) as u8));
    bytes.push(#[verifier::truncate] ((id >> 24u64) as u8));
    bytes.push(#[verifier::truncate] ((id >> 32u64) as u8));
    bytes.push(#[verifier::truncate] ((id >> 40u64) as u8));
    bytes.push(#[verifier::truncate] ((id >> 48u64) as u8));
    bytes.push((id >> 56u64) as u8);
    proof {
        assert(bytes@ =~= u64_le_bytes(id));
    }
    xxh3(&bytes)
}

/// The 64-bit session seed: the 32-bit world seed in both halves,
/// joined by shift and or.
pub fn session_seed(seed: u32) -> (r: u64)
    ensures
        r == (seed as u64) | ((seed as u64) << 32u64),
{
    (seed as u64) | ((seed as u64) << 32u64)
}

/// Relies on `wyrand::WyRand::new`: a generator whose stream is decided
/// by the 64-bit seed.
#[verifier::external_body]
pub(crate) fn rng_new(seed: u64) -> (r: wyrand::WyRand) {
    wyrand::WyRand::new(seed)
}

/// Relies on `rand::Rng::gen_range` over a half-open `u32` range: it
/// panics only on an empty range and returns a value inside the range.
#[verifier::external_body]
pub(crate) fn rng_range_u32(rng: &mut wyrand::WyRand, lo: u32, hi: u32) -> (r: u32)
    requires
        lo < hi,
    ensures
        lo <= r < hi,
{
    rand::Rng::gen_range(rng, lo..hi)
}

/// Relies on `rand::Rng::gen_range` over a half-open `i64` range: it
/// panics only on an empty range and returns a value inside the range.
#[verifier::external_body]
pub(crate) fn rng_range_i64(rng: &mut wyrand::WyRand, lo: i64, hi: i64) -> (r: i64)
    requires
        lo < hi,
    ensures
        lo <= r < hi,
{
    rand::Rng::gen_range(rng, lo..hi)
}

/// Relies on `rand::Rng::gen_ratio`: true with probability
/// `num / den`; it panics only when `den` is zero or `num` exceeds
/// `den`.
#[verifier::external_body]
pub(crate) fn rng_ratio(rng: &mut wyrand::WyRand, num: u32, den: u32) -> (r: bool)
    requires
        0 < den,
        num <= den,
{
    rand::Rng::gen_ratio(rng, num, den)
}

} // verus!
