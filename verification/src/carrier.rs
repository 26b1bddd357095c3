use vstd::prelude::*;

use crate::bytes::u16_from_pair;
use crate::compose::{stream_at, stream_slice, stream_take, ByteStream};
use crate::image_io::Rgba8Img;

verus! {

// ---------------------------------------------------------------------------
// The PNG carrier.
//
// Every cover pixel becomes one 16-bit RGBA output pixel: the cover channel
// moves to the high byte, the next stream byte fills the low byte of R, G
// and B, and alpha is forced fully opaque so that no optimizer discards
// the colour of transparent pixels.
// ---------------------------------------------------------------------------

/// The product of two 32-bit counts fits in 64 bits.
pub proof fn lemma_u32_mul_fits(a: nat, b: nat)
    by (nonlinear_arith)
    requires
        a <= 0xFFFF_FFFF,
        b <= 0xFFFF_FFFF,
    ensures
        a * b <= 0xFFFF_FFFE_0000_0001,
{
}

/// Four times any count splits back into quarters exactly.
pub proof fn lemma_quarters(m: nat)
    by (nonlinear_arith)
    ensures
        (4 * m) % 4 == 0,
        (4 * m) / 4 == m,
{
}

/// Word `j` of the embedded 16-bit raster (four words per pixel), with the
/// stream entering this raster at position `off`.
pub open spec fn embedded_word_at(
    cover: Seq<u8>,
    hdr: Seq<u8>,
    body: Seq<u8>,
    off: int,
    j: int,
) -> u16 {
    let p = j / 4;
    let c = j % 4;
    if c == 3 {
        0xFFFFu16
    } else {
        (((cover[4 * p + c] as u16) << 8) | (stream_at(hdr, body, off + 3 * p + c) as u16)) as u16
    }
}

/// The embedded 16-bit raster for a cover, reading the stream from `off` on.
pub open spec fn embedded_words_at(cover: Seq<u8>, hdr: Seq<u8>, body: Seq<u8>, off: int) -> Seq<
    u16,
> {
    Seq::new(cover.len(), |j: int| embedded_word_at(cover, hdr, body, off, j))
}

/// Word `j` of the embedded 16-bit raster (four words per pixel).
pub open spec fn embedded_word(cover: Seq<u8>, hdr: Seq<u8>, body: Seq<u8>, j: int) -> u16 {
    embedded_word_at(cover, hdr, body, 0, j)
}

/// The full embedded 16-bit raster for a cover and a logical stream.
pub open spec fn embedded_words(cover: Seq<u8>, hdr: Seq<u8>, body: Seq<u8>) -> Seq<u16> {
    Seq::new(cover.len(), |j: int| embedded_word(cover, hdr, body, j))
}

/// The byte stream a 16-bit RGBA raster hides: the low byte of R, G and B
/// of each pixel, in order; alpha carries nothing.
pub open spec fn png_low_bytes(pix: Seq<u16>) -> Seq<u8> {
    Seq::new(3 * (pix.len() / 4), |j: int| pix[4 * (j / 3) + (j % 3)] as u8)
}

/// Embeds the stream into an 8-bit RGBA cover, producing the 16-bit raster;
/// the stream is consumed from wherever it already stands.
pub fn embed_rgba8(cover: &Rgba8Img, bs: &mut ByteStream) -> (r: Vec<u16>)
    requires
        cover.wf(),
        old(bs).pos + 3 * ((cover.pixels@.len() as int) / 4) <= usize::MAX,
    ensures
        r@ == embedded_words_at(
            cover.pixels@,
            old(bs).header@,
            old(bs).body@,
            old(bs).pos as int,
        ),
        r@.len() == cover.pixels@.len(),
        final(bs).header@ == old(bs).header@,
        final(bs).body@ == old(bs).body@,
        final(bs).pos == old(bs).pos + 3 * ((cover.pixels@.len() as int) / 4),
{
    let npix: usize = cover.pixels.len() / 4;
    let ghost hdr = bs.header@;
    let ghost body = bs.body@;
    let ghost off = old(bs).pos as int;
    proof {
        lemma_quarters((cover.width as nat) * (cover.height as nat));
        assert(cover.pixels@.len() == 4 * ((cover.width as nat) * (cover.height as nat)))
            by (nonlinear_arith)
            requires
                cover.pixels@.len() == 4 * (cover.width as nat) * (cover.height as nat),
        ;
    }
    let mut out: Vec<u16> = Vec::new();
    let mut p: usize = 0;
    while p < npix
        invariant
            cover.wf(),
            npix == cover.pixels@.len() / 4,
            cover.pixels@.len() % 4 == 0,
            cover.pixels@.len() <= usize::MAX,
            off + 3 * npix <= usize::MAX,
            p <= npix,
            bs.header@ == hdr,
            bs.body@ == body,
            bs.pos == off + 3 * p,
            out@.len() == 4 * p,
            forall|j: int|
                0 <= j < 4 * p ==> out@[j] == embedded_word_at(cover.pixels@, hdr, body, off, j),
        decreases npix - p,
    {
        assert(4 * p + 3 < cover.pixels@.len());
        let b0: u8 = bs.next_byte();
        let b1: u8 = bs.next_byte();
        let b2: u8 = bs.next_byte();
        let w0: u16 = ((cover.pixels[4 * p] as u16) << 8) | (b0 as u16);
        let w1: u16 = ((cover.pixels[4 * p + 1] as u16) << 8) | (b1 as u16);
        let w2: u16 = ((cover.pixels[4 * p + 2] as u16) << 8) | (b2 as u16);
        out.push(w0);
        out.push(w1);
        out.push(w2);
        out.push(0xFFFF);
        proof {
            assert forall|j: int| 0 <= j < 4 * (p + 1) implies out@[j] == embedded_word_at(
                cover.pixels@,
                hdr,
                body,
                off,
                j,
            ) by {
                if j >= 4 * p {
                    assert(j / 4 == p && j % 4 == j - 4 * p);
                }
            }
        }
        p = p + 1;
    }
    proof {
        assert(out@ =~= embedded_words_at(cover.pixels@, hdr, body, off));
    }
    out
}

/// Reads the hidden byte stream back out of a 16-bit RGBA raster.
pub fn extract_rgba16(pixels: &Vec<u16>) -> (r: Vec<u8>)
    ensures
        r@ == png_low_bytes(pixels@),
{
    let npix: usize = pixels.len() / 4;
    let mut out: Vec<u8> = Vec::new();
    let mut p: usize = 0;
    while p < npix
        invariant
            npix == pixels@.len() / 4,
            pixels@.len() <= usize::MAX,
            p <= npix,
            out@.len() == 3 * p,
            forall|j: int| 0 <= j < 3 * p ==> out@[j] == png_low_bytes(pixels@)[j],
        decreases npix - p,
    {
        assert(4 * p + 2 < pixels@.len());
        let b0: u8 = #[verifier::truncate] (pixels[4 * p] as u8);
        let b1: u8 = #[verifier::truncate] (pixels[4 * p + 1] as u8);
        let b2: u8 = #[verifier::truncate] (pixels[4 * p + 2] as u8);
        out.push(b0);
        out.push(b1);
        out.push(b2);
        proof {
            assert forall|j: int| 0 <= j < 3 * (p + 1) implies out@[j] == png_low_bytes(pixels@)[j]
                by {
                if j >= 3 * p {
                    assert(j / 3 == p && j % 3 == j - 3 * p);
                }
            }
        }
        p = p + 1;
    }
    proof {
        assert(out@ =~= png_low_bytes(pixels@).take(3 * p as int));
        assert(png_low_bytes(pixels@).take(3 * p as int) =~= png_low_bytes(pixels@));
    }
    out
}

/// The cover a 16-bit raster came from: the high byte of every channel.
pub open spec fn png_high_bytes(pix: Seq<u16>) -> Seq<u8> {
    Seq::new(pix.len(), |j: int| (pix[j] >> 8) as u8)
}

/// Recovers the 8-bit cover raster from a 16-bit carrier raster.
pub fn restore_cover_rgba8(pixels: &Vec<u16>) -> (r: Vec<u8>)
    ensures
        r@ == png_high_bytes(pixels@),
{
    let n: usize = pixels.len();
    let mut out: Vec<u8> = Vec::new();
    let mut j: usize = 0;
    while j < n
        invariant
            n == pixels@.len(),
            j <= n,
            out@.len() == j,
            forall|t: int| 0 <= t < j ==> out@[t] == (pixels@[t] >> 8) as u8,
        decreases n - j,
    {
        let b: u8 = #[verifier::truncate] ((pixels[j] >> 8) as u8);
        out.push(b);
        j = j + 1;
    }
    proof {
        assert(out@ =~= png_high_bytes(pixels@));
    }
    out
}

/// The cover samples a 32-bit carrier came from: the high 16 bits of each.
pub open spec fn wav_high_samples(samples: Seq<u32>) -> Seq<i16> {
    Seq::new(samples.len(), |i: int| ((samples[i] >> 16) as u16) as i16)
}

/// Recovers the 16-bit cover samples from 32-bit carrier samples.
pub fn restore_cover_wav(samples: &Vec<u32>) -> (r: Vec<i16>)
    ensures
        r@ == wav_high_samples(samples@),
{
    let n: usize = samples.len();
    let mut out: Vec<i16> = Vec::new();
    let mut i: usize = 0;
    while i < n
        invariant
            n == samples@.len(),
            i <= n,
            out@.len() == i,
            forall|t: int| 0 <= t < i ==> out@[t] == ((samples@[t] >> 16) as u16) as i16,
        decreases n - i,
    {
        let w: u16 = #[verifier::truncate] ((samples[i] >> 16) as u16);
        let s: i16 = #[verifier::truncate] (w as i16);
        out.push(s);
        i = i + 1;
    }
    proof {
        assert(out@ =~= wav_high_samples(samples@));
    }
    out
}

/// Extracting from a raster embedded at offset `off` returns exactly the
/// written stream window: three bytes for every cover pixel.
pub proof fn lemma_png_extract_embed_at(cover: Seq<u8>, hdr: Seq<u8>, body: Seq<u8>, off: int)
    requires
        cover.len() % 4 == 0,
    ensures
        png_low_bytes(embedded_words_at(cover, hdr, body, off)) == stream_slice(
            hdr,
            body,
            off,
            3 * (cover.len() / 4),
        ),
{
    let e = embedded_words_at(cover, hdr, body, off);
    assert(e.len() == cover.len());
    assert forall|j: int| 0 <= j < 3 * (cover.len() / 4) implies png_low_bytes(e)[j] == stream_at(
        hdr,
        body,
        off + j,
    ) by {
        let p = j / 3;
        let c = j % 3;
        let w = 4 * p + c;
        assert(w / 4 == p && w % 4 == c);
        assert(e[w] == embedded_word_at(cover, hdr, body, off, w));
        let cb = cover[4 * p + c];
        let sb = stream_at(hdr, body, off + 3 * p + c);
        assert(((((cb as u16) << 8) | (sb as u16)) as u16) as u8 == sb) by (bit_vector);
        assert(off + 3 * p + c == off + j);
    }
    assert(png_low_bytes(e) =~= stream_slice(hdr, body, off, 3 * (cover.len() / 4)));
}

/// Extracting from an embedded raster returns exactly the stream prefix
/// that was written: three bytes for every cover pixel.
pub proof fn lemma_png_extract_embed(cover: Seq<u8>, hdr: Seq<u8>, body: Seq<u8>)
    requires
        cover.len() % 4 == 0,
    ensures
        png_low_bytes(embedded_words(cover, hdr, body)) == stream_take(
            hdr,
            body,
            3 * (cover.len() / 4),
        ),
{
    lemma_png_extract_embed_at(cover, hdr, body, 0);
    assert(embedded_words(cover, hdr, body) =~= embedded_words_at(cover, hdr, body, 0));
    assert(png_low_bytes(embedded_words_at(cover, hdr, body, 0)) =~= stream_take(
        hdr,
        body,
        3 * (cover.len() / 4),
    ));
}

// ---------------------------------------------------------------------------
// The WAV carrier.
//
// Every cover sample (normalized to 16 bits) becomes one 32-bit output
// sample: the cover bits move to the high half, two stream bytes fill the
// low half little-endian.
// ---------------------------------------------------------------------------

/// Output sample `i` of the embedded 32-bit audio.
pub open spec fn wav_embedded_word(cover: Seq<i16>, hdr: Seq<u8>, body: Seq<u8>, i: int) -> u32 {
    (((cover[i] as u16 as u32) << 16) | (u16_from_pair(
        stream_at(hdr, body, 2 * i),
        stream_at(hdr, body, 2 * i + 1),
    ) as u32)) as u32
}

/// The full embedded 32-bit sample sequence.
pub open spec fn wav_embedded(cover: Seq<i16>, hdr: Seq<u8>, body: Seq<u8>) -> Seq<u32> {
    Seq::new(cover.len(), |i: int| wav_embedded_word(cover, hdr, body, i))
}

/// The byte stream a 32-bit sample sequence hides: the low 16 bits of each
/// sample, as two little-endian bytes.
pub open spec fn wav_low_bytes(samples: Seq<u32>) -> Seq<u8> {
    Seq::new(
        2 * samples.len(),
        |j: int|
            if j % 2 == 0 {
                samples[j / 2] as u8
            } else {
                (samples[j / 2] >> 8) as u8
            },
    )
}

/// Embeds the stream into normalized 16-bit cover samples, producing the
/// 32-bit output samples.
pub fn embed_wav16(cover: &Vec<i16>, bs: &mut ByteStream) -> (r: Vec<u32>)
    requires
        old(bs).pos == 0,
        2 * cover@.len() <= usize::MAX,
    ensures
        r@ == wav_embedded(cover@, old(bs).header@, old(bs).body@),
        r@.len() == cover@.len(),
        final(bs).header@ == old(bs).header@,
        final(bs).body@ == old(bs).body@,
        final(bs).pos == 2 * cover@.len(),
{
    let n: usize = cover.len();
    let ghost hdr = bs.header@;
    let ghost body = bs.body@;
    let mut out: Vec<u32> = Vec::new();
    let mut i: usize = 0;
    while i < n
        invariant
            n == cover@.len(),
            2 * n <= usize::MAX,
            i <= n,
            bs.header@ == hdr,
            bs.body@ == body,
            bs.pos == 2 * i,
            out@.len() == i,
            forall|t: int| 0 <= t < i ==> out@[t] == wav_embedded_word(cover@, hdr, body, t),
        decreases n - i,
    {
        let b0: u8 = bs.next_byte();
        let b1: u8 = bs.next_byte();
        let hi: u16 = #[verifier::truncate] (cover[i] as u16);
        let chunk: u16 = (b0 as u16) | ((b1 as u16) << 8);
        let w: u32 = ((hi as u32) << 16) | (chunk as u32);
        out.push(w);
        proof {
            assert(chunk == u16_from_pair(b0, b1));
        }
        i = i + 1;
    }
    proof {
        assert(out@ =~= wav_embedded(cover@, hdr, body));
    }
    out
}

/// Reads the hidden byte stream back out of 32-bit carrier samples.
pub fn extract_wav32(samples: &Vec<u32>) -> (r: Vec<u8>)
    requires
        2 * samples@.len() <= usize::MAX,
    ensures
        r@ == wav_low_bytes(samples@),
{
    let n: usize = samples.len();
    let mut out: Vec<u8> = Vec::new();
    let mut i: usize = 0;
    while i < n
        invariant
            n == samples@.len(),
            2 * n <= usize::MAX,
            i <= n,
            out@.len() == 2 * i,
            forall|j: int| 0 <= j < 2 * i ==> out@[j] == wav_low_bytes(samples@)[j],
        decreases n - i,
    {
        let s: u32 = samples[i];
        let b0: u8 = #[verifier::truncate] (s as u8);
        let b1: u8 = #[verifier::truncate] ((s >> 8) as u8);
        out.push(b0);
        out.push(b1);
        proof {
            assert forall|j: int| 0 <= j < 2 * (i + 1) implies out@[j] == wav_low_bytes(samples@)[j]
                by {
                if j >= 2 * i {
                    assert(j / 2 == i && j % 2 == j - 2 * i);
                }
            }
        }
        i = i + 1;
    }
    proof {
        assert(out@ =~= wav_low_bytes(samples@));
    }
    out
}

/// Extracting from embedded audio returns exactly the stream prefix that
/// was written: two bytes for every cover sample.
pub proof fn lemma_wav_extract_embed(cover: Seq<i16>, hdr: Seq<u8>, body: Seq<u8>)
    ensures
        wav_low_bytes(wav_embedded(cover, hdr, body)) == stream_take(hdr, body, 2 * cover.len()),
{
    let e = wav_embedded(cover, hdr, body);
    assert forall|j: int| 0 <= j < 2 * cover.len() implies wav_low_bytes(e)[j] == stream_at(
        hdr,
        body,
        j,
    ) by {
        let i = j / 2;
        assert(e[i] == wav_embedded_word(cover, hdr, body, i));
        let hi = cover[i] as u16;
        let b0 = stream_at(hdr, body, 2 * i);
        let b1 = stream_at(hdr, body, 2 * i + 1);
        let chunk = u16_from_pair(b0, b1);
        if j % 2 == 0 {
            assert(2 * i == j);
            assert(((((hi as u32) << 16) | (chunk as u32)) as u32) as u8 == chunk as u8)
                by (bit_vector);
            assert(chunk as u8 == ((b0 as u16) | ((b1 as u16) << 8)) as u8);
            assert(((b0 as u16) | ((b1 as u16) << 8)) as u8 == b0) by (bit_vector);
        } else {
            assert(2 * i + 1 == j);
            assert((((((hi as u32) << 16) | (chunk as u32)) as u32) >> 8) as u8 == (chunk
                >> 8) as u8) by (bit_vector);
            assert((chunk >> 8) as u8 == (((b0 as u16) | ((b1 as u16) << 8)) >> 8) as u8);
            assert((((b0 as u16) | ((b1 as u16) << 8)) >> 8) as u8 == b1) by (bit_vector);
        }
    }
    assert(wav_low_bytes(e) =~= stream_take(hdr, body, 2 * cover.len()));
}

/// `true` iff `s * s < x`, without overflowing.
fn square_below(s: u64, x: u64) -> (r: bool)
    ensures
        r <==> s * s < x,
{
    match s.checked_mul(s) {
        Option::Some(v) => v < x,
        Option::None => false,
    }
}

/// The integer ceiling of the square root: the smallest `s >= 1` with
/// `s * s >= x`.
pub fn ceil_sqrt(x: u64) -> (s: u64)
    ensures
        1 <= s,
        s * s >= x,
        x <= 1 ==> s == 1,
        x > 1 ==> (s - 1) * (s - 1) < x,
{
    let mut s: u64 = 1;
    while square_below(s, x)
        invariant
            1 <= s,
            s == 1 || (s - 1) * (s - 1) < x,
        decreases x - s,
    {
        proof {
            assert(s < x) by (nonlinear_arith)
                requires
                    s * s < x,
                    1 <= s,
            ;
        }
        s = s + 1;
    }
    proof {
        if x <= 1 && s != 1 {
            assert((s - 1) * (s - 1) >= 1) by (nonlinear_arith)
                requires
                    s >= 2,
            ;
        }
    }
    s
}

} // verus!
