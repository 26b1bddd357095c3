use vstd::prelude::*;

use crate::carrier::{
    embed_rgba8, embedded_words_at, extract_rgba16, lemma_png_extract_embed_at, lemma_quarters,
    png_low_bytes,
};
use crate::compose::{stream_slice, stream_take, ByteStream};
use crate::errors::CodecError;
use crate::image_io::{decode_png16, encode_png16, png16_decode_of, ImgView16, Rgba8Img};
use crate::pipeline::{
    decode_extracted, decode_matches, decode_of_stream, stream_embedded_png, wire_body,
    wire_header, DecodeOutput,
};
use crate::security::key_view;

verus! {

// ---------------------------------------------------------------------------
// The sequence-of-frames carrier.
//
// One logical stream is spread over a directory of PNG covers in order:
// each frame carries the next window of the stream, three bytes per pixel,
// and once the stream is exhausted the remaining pixels carry the padding
// zeros. Reading the frames back in the same order and concatenating their
// hidden bytes reproduces the stream, so the ordinary extract pipeline
// decodes it. Scanning directories is host work; the per-frame allotment
// and the embedding are decided and proved here.
// ---------------------------------------------------------------------------

/// How many stream bytes the first `i` covers carry: three per pixel.
pub open spec fn seq_capacity(covers: Seq<Rgba8Img>, i: int) -> int
    decreases i,
{
    if i <= 0 {
        0
    } else {
        seq_capacity(covers, i - 1) + 3 * (covers[i - 1].pixels@.len() / 4)
    }
}

/// Every cover is a well-formed raster with nonzero dimensions, small
/// enough that its frame stays inside the PNG decoder's pixel allowance.
pub open spec fn covers_wf(covers: Seq<Rgba8Img>) -> bool {
    forall|i: int|
        0 <= i < covers.len() ==> (#[trigger] covers[i]).wf() && covers[i].width > 0
            && covers[i].height > 0 && (covers[i].width as nat) * (covers[i].height as nat)
            <= 0x0400_0000
}

/// The 16-bit raster frame `i` becomes: its cover with the stream window
/// starting at `off` in its low bytes.
pub open spec fn frame_view(cover: Rgba8Img, hdr: Seq<u8>, body: Seq<u8>, off: int) -> ImgView16 {
    ImgView16 {
        width: cover.width as nat,
        height: cover.height as nat,
        pixels: embedded_words_at(cover.pixels@, hdr, body, off),
    }
}

/// The concatenated hidden bytes of the first `i` frames, or `None` where
/// some frame is not a decodable PNG.
pub open spec fn seq_low_bytes(frames: Seq<Vec<u8>>, i: int) -> Option<Seq<u8>>
    decreases i,
{
    if i <= 0 {
        Some(Seq::empty())
    } else {
        match (seq_low_bytes(frames, i - 1), png16_decode_of(frames[i - 1]@)) {
            (Option::Some(acc), Option::Some(v)) => Some(acc + png_low_bytes(v.pixels)),
            _ => None,
        }
    }
}

/// Capacity grows with the frame count and is never negative.
pub proof fn lemma_seq_capacity_mono(covers: Seq<Rgba8Img>, i: int, j: int)
    requires
        0 <= i <= j,
    ensures
        0 <= seq_capacity(covers, i) <= seq_capacity(covers, j),
    decreases j,
{
    if j <= 0 {
    } else if i == j {
        lemma_seq_capacity_mono(covers, i - 1, j - 1);
    } else {
        lemma_seq_capacity_mono(covers, i, j - 1);
    }
}

/// Embeds one stream across a sequence of PNG covers, in order, producing
/// one carrier PNG per cover. Fails exactly when the covers together are
/// too small for the frame, with `ResizeRequiredButRefused`: a sequence is
/// never grown.
pub fn encode_sequence(covers: &Vec<Rgba8Img>, hdr: Vec<u8>, body: Vec<u8>) -> (r: Result<
    Vec<Vec<u8>>,
    CodecError,
>)
    requires
        hdr@.len() == 128,
        covers_wf(covers@),
        seq_capacity(covers@, covers@.len() as int) <= usize::MAX,
    ensures
        r is Ok <==> seq_capacity(covers@, covers@.len() as int) >= 128 + body@.len(),
        r is Err ==> r == Err::<Vec<Vec<u8>>, CodecError>(CodecError::ResizeRequiredButRefused),
        r is Ok ==> {
            let outs = r.unwrap()@;
            &&& outs.len() == covers@.len()
            &&& forall|i: int|
                0 <= i < outs.len() ==> png16_decode_of((#[trigger] outs[i])@) == Some(
                    frame_view(covers@[i], hdr@, body@, seq_capacity(covers@, i)),
                )
        },
{
    let n: usize = covers.len();
    let mut cap: u64 = 0;
    let mut i: usize = 0;
    while i < n
        invariant
            n == covers@.len(),
            covers_wf(covers@),
            seq_capacity(covers@, n as int) <= usize::MAX,
            i <= n,
            cap == seq_capacity(covers@, i as int),
        decreases n - i,
    {
        let flen: usize = covers[i].pixels.len();
        let term: usize = 3 * (flen / 4);
        proof {
            assert(3 * ((flen as int) / 4) <= flen as int);
            lemma_seq_capacity_mono(covers@, i as int + 1, n as int);
        }
        cap = cap + (term as u64);
        i = i + 1;
    }
    let blen: u64 = body.len() as u64;
    if cap < 128 || cap - 128 < blen {
        return Err(CodecError::ResizeRequiredButRefused);
    }
    let ghost hseq = hdr@;
    let ghost bseq = body@;
    let mut bs = ByteStream::new(hdr, body);
    let mut outs: Vec<Vec<u8>> = Vec::new();
    let mut i: usize = 0;
    while i < n
        invariant
            n == covers@.len(),
            covers_wf(covers@),
            seq_capacity(covers@, n as int) <= usize::MAX,
            i <= n,
            bs.header@ == hseq,
            bs.body@ == bseq,
            bs.pos == seq_capacity(covers@, i as int),
            outs@.len() == i,
            forall|k: int|
                0 <= k < i ==> png16_decode_of((#[trigger] outs@[k])@) == Some(
                    frame_view(covers@[k], hseq, bseq, seq_capacity(covers@, k)),
                ),
        decreases n - i,
    {
        let cover = &covers[i];
        proof {
            lemma_seq_capacity_mono(covers@, i as int + 1, n as int);
            lemma_seq_capacity_mono(covers@, 0, i as int);
            lemma_quarters((cover.width as nat) * (cover.height as nat));
            assert(cover.pixels@.len() == 4 * ((cover.width as nat) * (cover.height as nat)))
                by (nonlinear_arith)
                requires
                    cover.pixels@.len() == 4 * (cover.width as nat) * (cover.height as nat),
            ;
        }
        let pixels = embed_rgba8(cover, &mut bs);
        match encode_png16(cover.width, cover.height, &pixels) {
            Option::Some(out) => {
                outs.push(out);
            },
            Option::None => {
                proof {
                    assert(false);
                }
                return Err(CodecError::ResizeRequiredButRefused);
            },
        }
        i = i + 1;
    }
    Ok(outs)
}

/// Concatenates the hidden bytes of a frame sequence and runs the extract
/// pipeline on them.
pub fn decode_sequence(frames: &Vec<Vec<u8>>, key: Option<&Vec<u8>>) -> (r: Result<
    DecodeOutput,
    CodecError,
>)
    ensures
        match seq_low_bytes(frames@, frames@.len() as int) {
            Option::Some(s) => decode_matches(s, key_view(key), r),
            Option::None => r == Err::<DecodeOutput, CodecError>(CodecError::IoError),
        },
{
    let n: usize = frames.len();
    let mut stream: Vec<u8> = Vec::new();
    let mut i: usize = 0;
    while i < n
        invariant
            n == frames@.len(),
            i <= n,
            seq_low_bytes(frames@, i as int) == Some(stream@),
        decreases n - i,
    {
        let img = match decode_png16(&frames[i]) {
            Option::Some(v) => v,
            Option::None => {
                proof {
                    lemma_seq_lost(frames@, i as int + 1, n as int);
                }
                return Err(CodecError::IoError);
            },
        };
        let mut part = extract_rgba16(&img.pixels);
        stream.append(&mut part);
        i = i + 1;
    }
    decode_extracted(&stream, key)
}

/// Once one frame fails to decode, every longer prefix fails too.
proof fn lemma_seq_lost(frames: Seq<Vec<u8>>, i: int, j: int)
    requires
        0 < i <= j,
        png16_decode_of(frames[i - 1]@) is None || seq_low_bytes(frames, i - 1) is None,
    ensures
        seq_low_bytes(frames, j) is None,
    decreases j - i,
{
    if j > i {
        lemma_seq_lost(frames, i + 1, j);
    }
}

/// The concatenated hidden bytes of encoded frames are exactly the leading
/// window of the logical stream, as far as the covers reach.
proof fn lemma_seq_extract(
    covers: Seq<Rgba8Img>,
    outs: Seq<Vec<u8>>,
    hdr: Seq<u8>,
    body: Seq<u8>,
    i: int,
)
    requires
        0 <= i <= covers.len(),
        covers_wf(covers),
        outs.len() == covers.len(),
        forall|k: int|
            0 <= k < covers.len() ==> png16_decode_of((#[trigger] outs[k])@) == Some(
                frame_view(covers[k], hdr, body, seq_capacity(covers, k)),
            ),
    ensures
        seq_capacity(covers, i) >= 0,
        seq_low_bytes(outs, i) == Some(stream_take(hdr, body, seq_capacity(covers, i) as nat)),
    decreases i,
{
    if i == 0 {
        assert(stream_take(hdr, body, 0) =~= Seq::<u8>::empty());
    } else {
        lemma_seq_extract(covers, outs, hdr, body, i - 1);
        let off = seq_capacity(covers, i - 1);
        let cover = covers[i - 1];
        proof_cover_len(cover);
        lemma_png_extract_embed_at(cover.pixels@, hdr, body, off);
        let m = 3 * (cover.pixels@.len() / 4);
        assert(stream_take(hdr, body, off as nat) + stream_slice(hdr, body, off, m) =~= stream_take(
            hdr,
            body,
            (off + m) as nat,
        ));
    }
}

/// A well-formed cover's pixel count is a whole number of 4-sample pixels.
proof fn proof_cover_len(cover: Rgba8Img)
    requires
        cover.wf(),
    ensures
        cover.pixels@.len() % 4 == 0,
{
    lemma_quarters((cover.width as nat) * (cover.height as nat));
    assert(cover.pixels@.len() == 4 * ((cover.width as nat) * (cover.height as nat)))
        by (nonlinear_arith)
        requires
            cover.pixels@.len() == 4 * (cover.width as nat) * (cover.height as nat),
    ;
}

/// Round trip through a frame sequence: the frames a successful sequence
/// encode produces concatenate to a stream that decodes back to exactly
/// the original payload — for every payload, cover sequence, timestamp,
/// encryption choice, and optional key.
pub proof fn lemma_sequence_round_trip(
    p: Seq<u8>,
    encrypt: bool,
    ts: u64,
    key: Option<Seq<u8>>,
    ext: Seq<u8>,
    covers: Seq<Rgba8Img>,
    outs: Seq<Vec<u8>>,
)
    requires
        crate::compress::inflate_of(crate::compress::deflate_of(p)) == Some(p),
        crate::compress::deflate_of(p).len() + 130 <= u64::MAX,
        crate::security::sha256_of(crate::compress::deflate_of(p)).len() == 32,
        covers_wf(covers),
        outs.len() == covers.len(),
        forall|k: int|
            0 <= k < covers.len() ==> png16_decode_of((#[trigger] outs[k])@) == Some(
                frame_view(
                    covers[k],
                    wire_header(p, encrypt || key is Some, ts, ext),
                    wire_body(p, encrypt || key is Some, ts, key),
                    seq_capacity(covers, k),
                ),
            ),
        seq_capacity(covers, covers.len() as int) >= 128 + wire_body(
            p,
            encrypt || key is Some,
            ts,
            key,
        ).len(),
    ensures
        ({
            let s = seq_low_bytes(outs, outs.len() as int);
            &&& s is Some
            &&& decode_of_stream(s.unwrap(), key) == Ok::<Seq<u8>, CodecError>(p)
        }),
{
    let eff = encrypt || key is Some;
    let hdr = wire_header(p, eff, ts, ext);
    let body = wire_body(p, eff, ts, key);
    lemma_seq_extract(covers, outs, hdr, body, covers.len() as int);
    crate::pipeline::lemma_stream_round_trip(
        p,
        encrypt,
        ts,
        key,
        ext,
        seq_capacity(covers, covers.len() as int) as nat,
    );
}

} // verus!
