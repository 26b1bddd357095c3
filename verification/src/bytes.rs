use vstd::prelude::*;

verus! {

// ---------------------------------------------------------------------------
// Little-endian views of machine integers.
//
// The wire format stores every multi-byte field least-significant byte first;
// these spec functions are the single definition of that layout, and the
// exec functions below produce and consume it.
// ---------------------------------------------------------------------------

/// Byte `k` (0-based, least significant first) of a 64-bit value.
pub open spec fn u64_le_byte(v: u64, k: int) -> u8 {
    (v >> ((8 * k) as u64)) as u8
}

/// The eight bytes of a 64-bit value, least significant first.
pub open spec fn u64_le(v: u64) -> Seq<u8> {
    Seq::new(8, |i: int| u64_le_byte(v, i))
}

/// Recombines eight little-endian bytes into a 64-bit value.
pub open spec fn u64_from_le(b: Seq<u8>) -> u64
    recommends
        b.len() == 8,
{
    ((b[0] as u64) | ((b[1] as u64) << 8) | ((b[2] as u64) << 16) | ((b[3] as u64) << 24)
        | ((b[4] as u64) << 32) | ((b[5] as u64) << 40) | ((b[6] as u64) << 48) | ((b[7]
        as u64) << 56)) as u64
}

/// The low byte of a 16-bit value.
pub open spec fn u16_lo(v: u16) -> u8 {
    v as u8
}

/// The high byte of a 16-bit value.
pub open spec fn u16_hi(v: u16) -> u8 {
    (v >> 8) as u8
}

/// Builds a 16-bit value from its low and high bytes.
pub open spec fn u16_from_pair(lo: u8, hi: u8) -> u16 {
    ((lo as u16) | ((hi as u16) << 8)) as u16
}

/// Flattens 16-bit chunks into bytes, each chunk little-endian.
pub open spec fn chunks_to_bytes(ch: Seq<u16>) -> Seq<u8> {
    Seq::new(
        2 * ch.len(),
        |j: int| if j % 2 == 0 { u16_lo(ch[j / 2]) } else { u16_hi(ch[j / 2]) },
    )
}

/// Pairs consecutive bytes into little-endian 16-bit chunks.
pub open spec fn bytes_to_chunks(b: Seq<u8>) -> Seq<u16> {
    Seq::new(b.len() / 2, |i: int| u16_from_pair(b[2 * i], b[2 * i + 1]))
}

pub proof fn lemma_u64_le_roundtrip(v: u64)
    ensures
        u64_from_le(u64_le(v)) == v,
{
    let b = u64_le(v);
    assert(b[0] == u64_le_byte(v, 0) && b[1] == u64_le_byte(v, 1) && b[2] == u64_le_byte(v, 2)
        && b[3] == u64_le_byte(v, 3) && b[4] == u64_le_byte(v, 4) && b[5] == u64_le_byte(v, 5)
        && b[6] == u64_le_byte(v, 6) && b[7] == u64_le_byte(v, 7));
    assert((((v >> 0u64) as u8 as u64) | (((v >> 8u64) as u8 as u64) << 8) | (((v >> 16u64) as u8
        as u64) << 16) | (((v >> 24u64) as u8 as u64) << 24) | (((v >> 32u64) as u8 as u64) << 32)
        | (((v >> 40u64) as u8 as u64) << 40) | (((v >> 48u64) as u8 as u64) << 48) | (((v
        >> 56u64) as u8 as u64) << 56)) as u64 == v) by (bit_vector);
}

pub proof fn lemma_u16_pair_inverse(lo: u8, hi: u8)
    ensures
        u16_lo(u16_from_pair(lo, hi)) == lo,
        u16_hi(u16_from_pair(lo, hi)) == hi,
{
    assert((((lo as u16) | ((hi as u16) << 8)) as u16) as u8 == lo) by (bit_vector);
    assert(((((lo as u16) | ((hi as u16) << 8)) as u16) >> 8) as u8 == hi) by (bit_vector);
}

pub proof fn lemma_bytes_roundtrip(b: Seq<u8>)
    requires
        b.len() % 2 == 0,
    ensures
        chunks_to_bytes(bytes_to_chunks(b)) == b,
{
    let ch = bytes_to_chunks(b);
    assert forall|j: int| 0 <= j < b.len() implies chunks_to_bytes(ch)[j] == b[j] by {
        let i = j / 2;
        assert(ch[i] == u16_from_pair(b[2 * i], b[2 * i + 1]));
        lemma_u16_pair_inverse(b[2 * i], b[2 * i + 1]);
        if j % 2 == 0 {
            assert(2 * i == j);
        } else {
            assert(2 * i + 1 == j);
        }
    }
    assert(chunks_to_bytes(ch) =~= b);
}

// ---------------------------------------------------------------------------
// Executable counterparts.
// ---------------------------------------------------------------------------

/// Appends the eight little-endian bytes of `v`.
pub fn push_u64_le(out: &mut Vec<u8>, v: u64)
    ensures
        final(out)@ == old(out)@ + u64_le(v),
{
    let b0: u8 = #[verifier::truncate] ((v >> 0u64) as u8);
    let b1: u8 = #[verifier::truncate] ((v >> 8u64) as u8);
    let b2: u8 = #[verifier::truncate] ((v >> 16u64) as u8);
    let b3: u8 = #[verifier::truncate] ((v >> 24u64) as u8);
    let b4: u8 = #[verifier::truncate] ((v >> 32u64) as u8);
    let b5: u8 = #[verifier::truncate] ((v >> 40u64) as u8);
    let b6: u8 = #[verifier::truncate] ((v >> 48u64) as u8);
    let b7: u8 = #[verifier::truncate] ((v >> 56u64) as u8);
    out.push(b0);
    out.push(b1);
    out.push(b2);
    out.push(b3);
    out.push(b4);
    out.push(b5);
    out.push(b6);
    out.push(b7);
    assert(out@ =~= old(out)@ + u64_le(v));
}

/// Reads the 64-bit value stored little-endian at `b[off .. off + 8]`.
pub fn read_u64_le(b: &Vec<u8>, off: usize) -> (r: u64)
    requires
        off + 8 <= b@.len(),
    ensures
        r == u64_from_le(b@.subrange(off as int, off as int + 8)),
{
    let blen: usize = b.len();
    assert(off + 8 <= blen);
    let s = Ghost(b@.subrange(off as int, off as int + 8));
    let r: u64 = (b[off] as u64) | ((b[off + 1] as u64) << 8) | ((b[off + 2] as u64) << 16) | ((b[
        off + 3] as u64) << 24) | ((b[off + 4] as u64) << 32) | ((b[off + 5] as u64) << 40) | ((b[
        off + 6] as u64) << 48) | ((b[off + 7] as u64) << 56);
    proof {
        assert(s@[0] == b@[off as int] && s@[1] == b@[off as int + 1] && s@[2] == b@[off as int + 2]
            && s@[3] == b@[off as int + 3] && s@[4] == b@[off as int + 4] && s@[5] == b@[off as int
            + 5] && s@[6] == b@[off as int + 6] && s@[7] == b@[off as int + 7]);
    }
    r
}

/// Copies `b[start .. start + len]` into a fresh vector.
pub fn copy_range(b: &Vec<u8>, start: usize, len: usize) -> (r: Vec<u8>)
    requires
        start + len <= b@.len(),
    ensures
        r@ == b@.subrange(start as int, start as int + len as int),
{
    let blen: usize = b.len();
    assert(start + len <= blen);
    let mut r: Vec<u8> = Vec::new();
    let mut i: usize = 0;
    while i < len
        invariant
            start + len <= b@.len(),
            b@.len() <= usize::MAX,
            i <= len,
            r@ == b@.subrange(start as int, start as int + i as int),
        decreases len - i,
    {
        r.push(b[start + i]);
        proof {
            assert(r@ =~= b@.subrange(start as int, start as int + (i + 1) as int));
        }
        i = i + 1;
    }
    r
}

/// Flattens 16-bit chunks into little-endian bytes.
pub fn pack_chunks(ch: &Vec<u16>) -> (r: Vec<u8>)
    ensures
        r@ == chunks_to_bytes(ch@),
{
    let mut r: Vec<u8> = Vec::new();
    let mut i: usize = 0;
    while i < ch.len()
        invariant
            i <= ch@.len(),
            r@ == chunks_to_bytes(ch@.take(i as int)),
        decreases ch@.len() - i,
    {
        let c: u16 = ch[i];
        let lo: u8 = #[verifier::truncate] (c as u8);
        let hi: u8 = #[verifier::truncate] ((c >> 8) as u8);
        r.push(lo);
        r.push(hi);
        proof {
            assert(r@ =~= chunks_to_bytes(ch@.take(i as int + 1)));
        }
        i = i + 1;
    }
    proof {
        assert(ch@.take(ch@.len() as int) =~= ch@);
    }
    r
}

/// Pairs consecutive bytes into little-endian 16-bit chunks.
pub fn unpack_chunks(b: &Vec<u8>) -> (r: Vec<u16>)
    requires
        b@.len() % 2 == 0,
    ensures
        r@ == bytes_to_chunks(b@),
{
    let mut r: Vec<u16> = Vec::new();
    let n: usize = b.len() / 2;
    let mut i: usize = 0;
    while i < n
        invariant
            b@.len() % 2 == 0,
            n == b@.len() / 2,
            i <= n,
            b@.len() <= usize::MAX,
            r@ == bytes_to_chunks(b@).take(i as int),
        decreases n - i,
    {
        assert(2 * i + 1 < b@.len());
        let lo: u8 = b[2 * i];
        let hi: u8 = b[2 * i + 1];
        let c: u16 = (lo as u16) | ((hi as u16) << 8);
        r.push(c);
        proof {
            assert(c == u16_from_pair(lo, hi));
            assert(r@ =~= bytes_to_chunks(b@).take(i as int + 1));
        }
        i = i + 1;
    }
    proof {
        assert(bytes_to_chunks(b@).take(n as int) =~= bytes_to_chunks(b@));
    }
    r
}

} // verus!
