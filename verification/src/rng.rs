//! Named, portable random streams derived from the run root seed.
//!
//! Every concern draws from its own named ChaCha20 stream (`demand`,
//! `pedestrian_demand`, `profile`, `compliance`, `maneuver`), derived from the
//! root seed and a stable identifier (a demand-source index or an agent id),
//! so adding a draw to one stream cannot reshuffle another. The derivation is
//! a reproducibility derivation, not a cryptographic one: the stream name is
//! hashed with FNV-1a, mixed with the root seed and the identifier, and
//! decorrelated with the SplitMix64 finalizer.

use rand_chacha::rand_core::{Rng, SeedableRng};
use rand_chacha::ChaCha20Rng;
use vstd::prelude::*;
use vstd::string::StringSliceAdditionalSpecFns;
use vstd::wrapping::u64_specs;

verus! {

/// Stream name for portal demand generation and route assignment.
pub const STREAM_DEMAND: &'static str = "demand";

/// Stream name for pedestrian demand generation and route assignment.
pub const STREAM_PEDESTRIAN_DEMAND: &'static str = "pedestrian_demand";

/// Stream name for per-agent physical and behavior profile sampling.
pub const STREAM_PROFILE: &'static str = "profile";

/// Stream name for per-agent signal-compliance propensity sampling.
pub const STREAM_COMPLIANCE: &'static str = "compliance";

/// Stream name for the contextual wrong-way `maneuver` draw.
pub const STREAM_MANEUVER: &'static str = "maneuver";

/// FNV-1a 64-bit offset basis.
pub const FNV_OFFSET: u64 = 0xcbf2_9ce4_8422_2325u64;

/// FNV-1a 64-bit prime.
pub const FNV_PRIME: u64 = 0x0000_0100_0000_01b3u64;

/// SplitMix64 golden-gamma increment.
pub const SPLITMIX_GAMMA: u64 = 0x9e37_79b9_7f4a_7c15u64;

/// First SplitMix64 finalizer multiplier.
pub const SPLITMIX_MUL_1: u64 = 0xbf58_476d_1ce4_e5b9u64;

/// Second SplitMix64 finalizer multiplier.
pub const SPLITMIX_MUL_2: u64 = 0x94d0_49bb_1331_11ebu64;

/// The ChaCha20 generator of `rand_chacha`.
#[verifier::external_type_specification]
#[verifier::external_body]
pub struct ExChaCha20Rng(ChaCha20Rng);

/// The words, position `0` first, that `ChaCha20Rng::seed_from_u64(seed)`
/// yields from its start.
pub uninterp spec fn chacha20_words(seed: u64) -> Map<nat, u64>;

/// The words, position `0` first, that a generator yields from its current
/// position on.
pub uninterp spec fn chacha20_upcoming(rng: ChaCha20Rng) -> Map<nat, u64>;

/// The words that follow the first one.
pub open spec fn after_first(words: Map<nat, u64>) -> Map<nat, u64> {
    Map::new(|i: nat| true, |i: nat| words[i + 1])
}

/// Seeds a ChaCha20 generator with `SeedableRng::seed_from_u64`.
///
/// Claimed: the generator yields the words `chacha20_words(seed)`, a
/// deterministic function of the seed alone (`rand_core` documents a change of
/// `seed_from_u64`'s output as value-breaking).
#[verifier::external_body]
fn chacha20_seed_from_u64(seed: u64) -> (r: ChaCha20Rng)
    ensures
        chacha20_upcoming(r) == chacha20_words(seed),
{
    ChaCha20Rng::seed_from_u64(seed)
}

/// Draws one word with `Rng::next_u64`.
///
/// Claimed: the word is the generator's next upcoming word, and the generator
/// then yields the words after it.
#[verifier::external_body]
fn chacha20_next_u64(rng: &mut ChaCha20Rng) -> (r: u64)
    ensures
        r == chacha20_upcoming(*old(rng))[0],
        chacha20_upcoming(*final(rng)) == after_first(chacha20_upcoming(*old(rng))),
{
    rng.next_u64()
}

/// The FNV-1a hash of a byte string.
pub open spec fn fnv1a_of(bytes: Seq<u8>) -> u64
    decreases bytes.len(),
{
    if bytes.len() == 0 {
        FNV_OFFSET
    } else {
        u64_specs::wrapping_mul(fnv1a_of(bytes.drop_last()) ^ (bytes.last() as u64), FNV_PRIME)
    }
}

/// The SplitMix64 finalizer.
pub open spec fn splitmix64_of(state: u64) -> u64 {
    let z0 = u64_specs::wrapping_add(state, SPLITMIX_GAMMA);
    let z1 = u64_specs::wrapping_mul(z0 ^ (z0 >> 30u64), SPLITMIX_MUL_1);
    let z2 = u64_specs::wrapping_mul(z1 ^ (z1 >> 27u64), SPLITMIX_MUL_2);
    z2 ^ (z2 >> 31u64)
}

/// The value the name hash, root seed, and identifier are mixed into before
/// the finalizer.
pub open spec fn stream_mix(name: Seq<u8>, root_seed: u64, id: u32) -> u64 {
    fnv1a_of(name) ^ root_seed ^ u64_specs::wrapping_mul(id as u64, SPLITMIX_GAMMA)
}

/// The 64-bit seed of the stream named `name` for `root_seed` and `id`.
pub open spec fn stream_seed(name: Seq<u8>, root_seed: u64, id: u32) -> u64 {
    splitmix64_of(stream_mix(name, root_seed, id))
}

/// FNV-1a hash of a stream name.
pub fn fnv1a(name: &str) -> (r: u64)
    ensures
        r == fnv1a_of(name.spec_bytes()),
{
    let bytes = name.as_bytes();
    let mut hash: u64 = FNV_OFFSET;
    let mut i: usize = 0;
    while i < bytes.len()
        invariant
            i <= bytes@.len(),
            bytes@ == name.spec_bytes(),
            hash == fnv1a_of(bytes@.subrange(0, i as int)),
        decreases bytes.len() - i,
    {
        proof {
            assert(bytes@.subrange(0, i + 1).drop_last() =~= bytes@.subrange(0, i as int));
        }
        hash = hash ^ (bytes[i] as u64);
        hash = hash.wrapping_mul(FNV_PRIME);
        i = i + 1;
    }
    proof {
        assert(bytes@.subrange(0, bytes@.len() as int) =~= bytes@);
    }
    hash
}

/// SplitMix64 finalizer, used to decorrelate the mixed seed bits.
pub fn splitmix64(state: u64) -> (r: u64)
    ensures
        r == splitmix64_of(state),
{
    let mut z = state.wrapping_add(SPLITMIX_GAMMA);
    z = (z ^ (z >> 30u64)).wrapping_mul(SPLITMIX_MUL_1);
    z = (z ^ (z >> 27u64)).wrapping_mul(SPLITMIX_MUL_2);
    z ^ (z >> 31u64)
}

/// The 64-bit seed a named stream is seeded from.
///
/// The name hash is mixed with the root seed and the stable identifier so the
/// seed depends on all three inputs.
pub fn derive_seed(root_seed: u64, name: &str, id: u32) -> (r: u64)
    ensures
        r == stream_seed(name.spec_bytes(), root_seed, id),
{
    let name_hash = fnv1a(name);
    let mixed = name_hash ^ root_seed ^ (id as u64).wrapping_mul(SPLITMIX_GAMMA);
    splitmix64(mixed)
}

/// Derive a named ChaCha stream from the root seed and a stable identifier.
///
/// The same `(root_seed, name, id)` always yields the same sequence on every
/// run and platform.
pub fn derive_stream(root_seed: u64, name: &str, id: u32) -> (r: ChaCha20Rng)
    ensures
        chacha20_upcoming(r) == chacha20_words(stream_seed(name.spec_bytes(), root_seed, id)),
{
    chacha20_seed_from_u64(derive_seed(root_seed, name, id))
}

/// Draw the 53-bit numerator of a uniform value in `[0, 1)` from a stream.
///
/// The numerator is the top 53 bits of the stream's next word, so the unit
/// value `numerator / 2^53` has the same spacing everywhere in `[0, 1)`.
pub fn uniform01_numerator(rng: &mut ChaCha20Rng) -> (r: u64)
    ensures
        r == chacha20_upcoming(*old(rng))[0] >> 11u64,
        r < 0x20_0000_0000_0000u64,
        chacha20_upcoming(*final(rng)) == after_first(chacha20_upcoming(*old(rng))),
{
    let word = chacha20_next_u64(rng);
    assert(word >> 11u64 < 0x20_0000_0000_0000u64) by (bit_vector);
    word >> 11u64
}

/// The modular inverse of [`SPLITMIX_MUL_1`] modulo `2^64`.
pub const SPLITMIX_MUL_1_INVERSE: u64 = 0x96de_1b17_3f11_9089u64;

/// The modular inverse of [`SPLITMIX_MUL_2`] modulo `2^64`.
pub const SPLITMIX_MUL_2_INVERSE: u64 = 0x3196_42b2_d24d_8ec3u64;

/// The modular inverse of [`SPLITMIX_GAMMA`] modulo `2^64`.
pub const SPLITMIX_GAMMA_INVERSE: u64 = 0xf1de_83e1_9937_733du64;

/// Multiplying by `c` and then by an inverse `ci` of `c` modulo `2^64` gives
/// back the word it started from.
proof fn lemma_wrapping_mul_cancels(x: u64, c: u64, ci: u64)
    requires
        (c as int * ci as int) % 0x1_0000_0000_0000_0000int == 1,
    ensures
        u64_specs::wrapping_mul(u64_specs::wrapping_mul(x, c), ci) == x,
{
    let m: int = 0x1_0000_0000_0000_0000int;
    let a: int = x as int * c as int;
    vstd::arithmetic::div_mod::lemma_mul_mod_noop_left(a, ci as int, m);
    let p: int = c as int * ci as int;
    let q: int = p / m;
    vstd::arithmetic::div_mod::lemma_fundamental_div_mod(p, m);
    assert(p == m * q + 1);
    assert(a * ci as int == x as int * p) by (nonlinear_arith)
        requires
            a == x as int * c as int,
            p == c as int * ci as int,
    ;
    assert(x as int * p == m * (x as int * q) + x as int) by (nonlinear_arith)
        requires
            p == m * q + 1,
    ;
    vstd::arithmetic::div_mod::lemma_mod_multiples_vanish(x as int * q, x as int, m);
    vstd::arithmetic::div_mod::lemma_small_mod(x as nat, m as nat);
    assert(a % m == u64_specs::wrapping_mul(x, c) as int) by {
        vstd::arithmetic::div_mod::lemma_mod_bound(a, m);
    }
}

/// Multiplying by an odd constant that has an inverse is injective.
proof fn lemma_wrapping_mul_injective(x: u64, y: u64, c: u64, ci: u64)
    requires
        (c as int * ci as int) % 0x1_0000_0000_0000_0000int == 1,
        u64_specs::wrapping_mul(x, c) == u64_specs::wrapping_mul(y, c),
    ensures
        x == y,
{
    lemma_wrapping_mul_cancels(x, c, ci);
    lemma_wrapping_mul_cancels(y, c, ci);
}

/// The SplitMix64 finalizer is injective: distinct mixed values always give
/// distinct seeds.
pub proof fn lemma_splitmix64_injective(x: u64, y: u64)
    requires
        splitmix64_of(x) == splitmix64_of(y),
    ensures
        x == y,
{
    let x0 = u64_specs::wrapping_add(x, SPLITMIX_GAMMA);
    let y0 = u64_specs::wrapping_add(y, SPLITMIX_GAMMA);
    let x1 = u64_specs::wrapping_mul(x0 ^ (x0 >> 30u64), SPLITMIX_MUL_1);
    let y1 = u64_specs::wrapping_mul(y0 ^ (y0 >> 30u64), SPLITMIX_MUL_1);
    let x2 = u64_specs::wrapping_mul(x1 ^ (x1 >> 27u64), SPLITMIX_MUL_2);
    let y2 = u64_specs::wrapping_mul(y1 ^ (y1 >> 27u64), SPLITMIX_MUL_2);
    assert(x2 == y2) by (bit_vector)
        requires
            x2 ^ (x2 >> 31u64) == y2 ^ (y2 >> 31u64),
    ;
    lemma_wrapping_mul_injective(
        x1 ^ (x1 >> 27u64),
        y1 ^ (y1 >> 27u64),
        SPLITMIX_MUL_2,
        SPLITMIX_MUL_2_INVERSE,
    );
    assert(x1 == y1) by (bit_vector)
        requires
            x1 ^ (x1 >> 27u64) == y1 ^ (y1 >> 27u64),
    ;
    lemma_wrapping_mul_injective(
        x0 ^ (x0 >> 30u64),
        y0 ^ (y0 >> 30u64),
        SPLITMIX_MUL_1,
        SPLITMIX_MUL_1_INVERSE,
    );
    assert(x0 == y0) by (bit_vector)
        requires
            x0 ^ (x0 >> 30u64) == y0 ^ (y0 >> 30u64),
    ;
}

/// The same `(root_seed, name, id)` always yields the same stream: any two
/// generators the derivation returns for them yield the same words.
pub proof fn law_same_inputs_reproduce_a_stream(
    first: ChaCha20Rng,
    second: ChaCha20Rng,
    root_seed: u64,
    name: Seq<u8>,
    id: u32,
)
    requires
        chacha20_upcoming(first) == chacha20_words(stream_seed(name, root_seed, id)),
        chacha20_upcoming(second) == chacha20_words(stream_seed(name, root_seed, id)),
    ensures
        chacha20_upcoming(first) == chacha20_upcoming(second),
{
}

/// Streams of one name and root seed under distinct identifiers are seeded
/// with distinct seeds.
pub proof fn law_identifiers_give_distinct_seeds(name: Seq<u8>, root_seed: u64, first: u32, second: u32)
    requires
        first != second,
    ensures
        stream_seed(name, root_seed, first) != stream_seed(name, root_seed, second),
{
    if stream_seed(name, root_seed, first) == stream_seed(name, root_seed, second) {
        lemma_splitmix64_injective(stream_mix(name, root_seed, first), stream_mix(name, root_seed, second));
        let h = fnv1a_of(name);
        let a = u64_specs::wrapping_mul(first as u64, SPLITMIX_GAMMA);
        let b = u64_specs::wrapping_mul(second as u64, SPLITMIX_GAMMA);
        assert(a == b) by (bit_vector)
            requires
                h ^ root_seed ^ a == h ^ root_seed ^ b,
        ;
        lemma_wrapping_mul_injective(first as u64, second as u64, SPLITMIX_GAMMA, SPLITMIX_GAMMA_INVERSE);
    }
}

/// Streams of one name and identifier under distinct root seeds are seeded
/// with distinct seeds.
pub proof fn law_root_seeds_give_distinct_seeds(name: Seq<u8>, first: u64, second: u64, id: u32)
    requires
        first != second,
    ensures
        stream_seed(name, first, id) != stream_seed(name, second, id),
{
    if stream_seed(name, first, id) == stream_seed(name, second, id) {
        lemma_splitmix64_injective(stream_mix(name, first, id), stream_mix(name, second, id));
        let h = fnv1a_of(name);
        let g = u64_specs::wrapping_mul(id as u64, SPLITMIX_GAMMA);
        assert(first == second) by (bit_vector)
            requires
                h ^ first ^ g == h ^ second ^ g,
        ;
    }
}

} // verus!
