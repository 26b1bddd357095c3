use vstd::prelude::*;

use crate::bytes::{u64_le, u64_le_byte, push_u64_le};

verus! {

// ---------------------------------------------------------------------------
// The deterministic keystream.
//
// The generator is rand_chacha's ChaCha8, seeded from the frame timestamp.
// Verus sees the generator as an opaque value; the two spec functions below
// name its abstract state (the seed it was built from and how many words
// have been drawn), and `chacha8_word` names the word stream itself.
// ---------------------------------------------------------------------------

/// Word `i` of the ChaCha8 stream for a given 64-bit seed.
pub uninterp spec fn chacha8_word(seed: u64, i: nat) -> u64;

/// The seed a generator value was built from.
pub uninterp spec fn rng_seed(rng: rand_chacha::ChaCha8Rng) -> u64;

/// How many words have been drawn from a generator value.
pub uninterp spec fn rng_pos(rng: rand_chacha::ChaCha8Rng) -> nat;

#[verifier::external_type_specification]
#[verifier::external_body]
pub struct ExChaCha8Rng(rand_chacha::ChaCha8Rng);

/// Relies on rand_chacha::ChaCha8Rng::seed_from_u64 (rand_core::SeedableRng):
/// the generator state is a function of the 64-bit seed alone.
#[verifier::external_body]
fn chacha8_from_seed(seed: u64) -> (r: rand_chacha::ChaCha8Rng)
    ensures
        rng_seed(r) == seed,
        rng_pos(r) == 0,
{
    <rand_chacha::ChaCha8Rng as rand::SeedableRng>::seed_from_u64(seed)
}

/// Relies on rand::RngCore::next_u64 for ChaCha8Rng: successive calls yield
/// the words of a stream fully determined by the seed; no other input enters.
#[verifier::external_body]
fn chacha8_next_word(rng: &mut rand_chacha::ChaCha8Rng) -> (r: u64)
    ensures
        rng_seed(*final(rng)) == rng_seed(*old(rng)),
        rng_pos(*final(rng)) == rng_pos(*old(rng)) + 1,
        r == chacha8_word(rng_seed(*old(rng)), rng_pos(*old(rng))),
{
    rand::RngCore::next_u64(rng)
}

/// Byte `i` of the keystream: the words are consumed left to right, each
/// split into its eight little-endian bytes.
pub open spec fn ks_byte(seed: u64, i: int) -> u8 {
    u64_le_byte(chacha8_word(seed, (i / 8) as nat), i % 8)
}

/// Byte `i` of the one-shot physical key layer: the key byte where the key
/// still covers position `i`, and 0 once the key is exhausted or absent.
pub open spec fn key_byte_at(key: Option<Seq<u8>>, i: int) -> u8 {
    match key {
        Option::Some(k) => if i < k.len() {
            k[i]
        } else {
            0u8
        },
        Option::None => 0u8,
    }
}

/// The symmetric XOR transform: every byte is XORed with the algorithmic
/// keystream and, one-shot, with the physical key.
pub open spec fn cipher_with(data: Seq<u8>, seed: u64, key: Option<Seq<u8>>) -> Seq<u8> {
    Seq::new(data.len(), |i: int| data[i] ^ ks_byte(seed, i) ^ key_byte_at(key, i))
}

/// The sequence a borrowed optional key stands for.
pub open spec fn key_view(key: Option<&Vec<u8>>) -> Option<Seq<u8>> {
    match key {
        Option::Some(k) => Option::Some(k@),
        Option::None => Option::None,
    }
}

/// The first `n` keystream bytes for `seed`.
fn keystream_bytes(seed: u64, n: usize) -> (r: Vec<u8>)
    ensures
        r@.len() == n,
        forall|i: int| 0 <= i < n ==> r@[i] == ks_byte(seed, i),
{
    let mut rng = chacha8_from_seed(seed);
    let mut out: Vec<u8> = Vec::new();
    while out.len() < n
        invariant
            rng_seed(rng) == seed,
            8 * rng_pos(rng) == out@.len(),
            forall|i: int| 0 <= i < out@.len() ==> out@[i] == ks_byte(seed, i),
        decreases n + 8 - out@.len(),
    {
        let ghost pos: nat = rng_pos(rng);
        let w: u64 = chacha8_next_word(&mut rng);
        push_u64_le(&mut out, w);
        proof {
            assert forall|i: int| 0 <= i < out@.len() implies out@[i] == ks_byte(seed, i) by {
                if i >= 8 * pos {
                    let t = i - 8 * pos;
                    assert(out@[i] == u64_le(w)[t]);
                    assert(u64_le(w)[t] == u64_le_byte(w, t));
                    assert(i / 8 == pos && i % 8 == t);
                }
            }
        }
    }
    out.truncate(n);
    out
}

/// Applies the symmetric XOR cipher in place: the ChaCha8 keystream seeded
/// by `timestamp`, plus the optional one-shot physical key. Applying the
/// same call twice restores the original bytes.
pub fn encrypt_decrypt(data: &mut Vec<u8>, timestamp: u64, key: Option<&Vec<u8>>)
    ensures
        final(data)@ == cipher_with(old(data)@, timestamp, key_view(key)),
{
    let n: usize = data.len();
    let ks = keystream_bytes(timestamp, n);
    let mut out: Vec<u8> = Vec::new();
    let mut i: usize = 0;
    while i < n
        invariant
            n == data@.len(),
            data@ == old(data)@,
            ks@.len() == n,
            forall|t: int| 0 <= t < n ==> ks@[t] == ks_byte(timestamp, t),
            i <= n,
            out@.len() == i,
            forall|t: int| 0 <= t < i ==> out@[t] == (data@[t] ^ ks_byte(timestamp, t)
                ^ key_byte_at(key_view(key), t)),
        decreases n - i,
    {
        let mut b: u8 = data[i] ^ ks[i];
        match key {
            Option::Some(k) => {
                if i < k.len() {
                    b = b ^ k[i];
                }
            },
            Option::None => {},
        }
        proof {
            let a = data@[i as int] ^ ks_byte(timestamp, i as int);
            assert(a ^ 0u8 == a) by (bit_vector);
        }
        out.push(b);
        i = i + 1;
    }
    *data = out;
    proof {
        assert(data@ =~= cipher_with(old(data)@, timestamp, key_view(key)));
    }
}

/// Applying the keystream twice is the identity: the cipher is an
/// involution for every data sequence, seed, and optional key.
pub proof fn lemma_cipher_involution(data: Seq<u8>, seed: u64, key: Option<Seq<u8>>)
    ensures
        cipher_with(cipher_with(data, seed, key), seed, key) == data,
{
    let c = cipher_with(data, seed, key);
    assert forall|i: int| 0 <= i < data.len() implies cipher_with(c, seed, key)[i] == data[i] by {
        let a = data[i];
        let k1 = ks_byte(seed, i);
        let k2 = key_byte_at(key, i);
        assert(((a ^ k1 ^ k2) ^ k1 ^ k2) == a) by (bit_vector);
    }
    assert(cipher_with(c, seed, key) =~= data);
}

// ---------------------------------------------------------------------------
// The content digest.
// ---------------------------------------------------------------------------

/// The SHA-256 digest of a byte sequence.
pub uninterp spec fn sha256_of(data: Seq<u8>) -> Seq<u8>;

/// Relies on sha2::Sha256::digest (FIPS 180-4 SHA-256): the 32-byte digest
/// is a function of the input bytes alone.
#[verifier::external_body]
pub fn calculate_hash(data: &Vec<u8>) -> (r: Vec<u8>)
    ensures
        r@ == sha256_of(data@),
        r@.len() == 32,
{
    <sha2::Sha256 as sha2::Digest>::digest(data.as_slice()).to_vec()
}

} // verus!
