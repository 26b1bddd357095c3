use vstd::prelude::*;

use crate::audio_io::{
    decode_wav, is_wav_ext, norm_samples_i16, normalize_wav, encode_wav32, wav_decode_of, WavView,
};
use crate::bytes::{copy_range, u64_from_le};
use crate::carrier::{
    ceil_sqrt, embed_rgba8, embed_wav16, extract_rgba16, extract_wav32, lemma_png_extract_embed,
    lemma_quarters, lemma_wav_extract_embed, png_low_bytes, wav_embedded, wav_low_bytes,
};
use crate::compose::{stream_take, ByteStream};
use crate::compress::{deflate_bytes, deflate_of, inflate_bytes, inflate_of};
use crate::errors::CodecError;
use crate::header::{
    ext_pad, header_bytes_of, lemma_header_bytes_fields, magic_ok, trim_nul, Header,
};
use crate::image_io::{decode_rgba8, png16_decode_of, resize_rgba8, encode_png16, rgba8_decode_of};
use crate::security::{cipher_with, encrypt_decrypt, key_view, calculate_hash, sha256_of};

verus! {

// ---------------------------------------------------------------------------
// Container kind tags.
// ---------------------------------------------------------------------------

/// `true` iff the tag is `png` (lower case).
pub open spec fn is_png_tag(s: Seq<u8>) -> bool {
    s == seq![0x70u8, 0x6eu8, 0x67u8]
}

/// `true` iff the tag is `jpg` or `jpeg` (lower case): such covers are
/// accepted for the PNG writer and re-encoded as PNG on output.
pub open spec fn is_jpg_tag(s: Seq<u8>) -> bool {
    s == seq![0x6au8, 0x70u8, 0x67u8] || s == seq![0x6au8, 0x70u8, 0x65u8, 0x67u8]
}

/// Compares a tag against `png`.
pub fn tag_is_png(s: &Vec<u8>) -> (r: bool)
    ensures
        r <==> is_png_tag(s@),
{
    let r: bool = s.len() == 3 && s[0] == 0x70 && s[1] == 0x6e && s[2] == 0x67;
    proof {
        if s@.len() == 3 {
            assert(s@ =~= seq![0x70u8, 0x6eu8, 0x67u8] <==> (s@[0] == 0x70u8 && s@[1] == 0x6eu8
                && s@[2] == 0x67u8));
        }
    }
    r
}

/// Compares a tag against `jpg` and `jpeg`.
pub fn tag_is_jpg(s: &Vec<u8>) -> (r: bool)
    ensures
        r <==> is_jpg_tag(s@),
{
    let short: bool = s.len() == 3 && s[0] == 0x6a && s[1] == 0x70 && s[2] == 0x67;
    let long: bool = s.len() == 4 && s[0] == 0x6a && s[1] == 0x70 && s[2] == 0x65 && s[3] == 0x67;
    proof {
        if s@.len() == 3 {
            assert(s@ =~= seq![0x6au8, 0x70u8, 0x67u8] <==> (s@[0] == 0x6au8 && s@[1] == 0x70u8
                && s@[2] == 0x67u8));
        }
        if s@.len() == 4 {
            assert(s@ =~= seq![0x6au8, 0x70u8, 0x65u8, 0x67u8] <==> (s@[0] == 0x6au8 && s@[1]
                == 0x70u8 && s@[2] == 0x65u8 && s@[3] == 0x67u8));
        }
    }
    short || long
}

/// Compares a tag against `wav`.
pub fn tag_is_wav(s: &Vec<u8>) -> (r: bool)
    ensures
        r <==> is_wav_ext(s@),
{
    let r: bool = s.len() == 3 && s[0] == 0x77 && s[1] == 0x61 && s[2] == 0x76;
    proof {
        if s@.len() == 3 {
            assert(s@ =~= seq![0x77u8, 0x61u8, 0x76u8] <==> (s@[0] == 0x77u8 && s@[1] == 0x61u8
                && s@[2] == 0x76u8));
        }
    }
    r
}

// ---------------------------------------------------------------------------
// The wire stream of one encode, at the spec level.
// ---------------------------------------------------------------------------

/// The flags byte: compressed is always set, encrypted follows `eff`.
pub open spec fn effective_flags(eff: bool) -> u8 {
    if eff {
        3u8
    } else {
        2u8
    }
}

/// The serialized header an encode with these arguments writes.
pub open spec fn wire_header(p: Seq<u8>, eff: bool, ts: u64, ext: Seq<u8>) -> Seq<u8> {
    header_bytes_of(
        deflate_of(p).len() as u64,
        1u8,
        effective_flags(eff),
        ts,
        sha256_of(deflate_of(p)),
        ext_pad(ext),
    )
}

/// The body an encode writes after the header: the compressed payload,
/// encrypted when the encrypted flag is in force.
pub open spec fn wire_body(p: Seq<u8>, eff: bool, ts: u64, key: Option<Seq<u8>>) -> Seq<u8> {
    if eff {
        cipher_with(deflate_of(p), ts, key)
    } else {
        deflate_of(p)
    }
}

// ---------------------------------------------------------------------------
// Decoding an extracted stream, at the spec level.
// ---------------------------------------------------------------------------

/// What decoding an extracted byte stream yields: the payload, or the exact
/// error. The decoder reads exactly `128 + payload_len` bytes and ignores
/// everything after them.
pub open spec fn decode_of_stream(s: Seq<u8>, key: Option<Seq<u8>>) -> Result<Seq<u8>, CodecError> {
    if !(s.len() >= 128 && magic_ok(s)) {
        Err(CodecError::MalformedHeader)
    } else {
        let plen = u64_from_le(s.subrange(4, 12)) as int;
        if s.len() < 128 + plen {
            Err(CodecError::PayloadTruncated)
        } else {
            let raw = s.subrange(128, 128 + plen);
            let body = if s[13] & 1 == 1 {
                cipher_with(raw, u64_from_le(s.subrange(14, 22)), key)
            } else {
                raw
            };
            match inflate_of(body) {
                Option::Some(p) => Ok(p),
                Option::None => Err(CodecError::CompressionError),
            }
        }
    }
}

/// The extension hint a stream carries.
pub open spec fn stream_ext_hint(s: Seq<u8>) -> Seq<u8> {
    trim_nul(s.subrange(54, 62))
}

/// The version byte a stream carries.
pub open spec fn stream_version(s: Seq<u8>) -> u8 {
    s[12]
}

/// The encrypted flag a stream carries.
pub open spec fn stream_encrypted(s: Seq<u8>) -> bool {
    s[13] & 1 == 1
}

/// What a successful decode returns.
pub struct DecodeOutput {
    /// The recovered payload bytes.
    pub payload: Vec<u8>,
    /// The NUL-trimmed extension hint from the header, for renaming.
    pub extension: Vec<u8>,
    /// The header's version byte; values other than 1 are accepted and
    /// surfaced here so a caller can warn.
    pub version: u8,
}

/// Relates an extracted stream to what `decode_stream` returned for it.
pub open spec fn decode_matches(
    s: Seq<u8>,
    key: Option<Seq<u8>>,
    r: Result<DecodeOutput, CodecError>,
) -> bool {
    match decode_of_stream(s, key) {
        Ok(p) => {
            &&& r is Ok
            &&& r.unwrap().payload@ == p
            &&& r.unwrap().extension@ == stream_ext_hint(s)
            &&& r.unwrap().version == stream_version(s)
        },
        Err(e) => r == Err::<DecodeOutput, CodecError>(e),
    }
}

// ---------------------------------------------------------------------------
// What a successful embed guarantees about the produced carrier.
// ---------------------------------------------------------------------------

/// The carrier PNG hides exactly the stream `hdr ‖ body ‖ 0…`, and has room
/// for all of it.
pub open spec fn stream_embedded_png(hdr: Seq<u8>, body: Seq<u8>, out: Seq<u8>) -> bool {
    &&& png16_decode_of(out) is Some
    &&& {
        let v = png16_decode_of(out).unwrap();
        &&& png_low_bytes(v.pixels) == stream_take(hdr, body, 3 * (v.pixels.len() / 4))
        &&& 3 * (v.pixels.len() / 4) >= 128 + body.len()
    }
}

/// The carrier WAV hides exactly the stream `hdr ‖ body ‖ 0…`, and has room
/// for all of it.
pub open spec fn stream_embedded_wav(hdr: Seq<u8>, body: Seq<u8>, out: Seq<u8>) -> bool {
    &&& wav_decode_of(out) is Some
    &&& {
        let w = wav_decode_of(out).unwrap();
        &&& w.bits == 32
        &&& wav_low_bytes(w.samples) == stream_take(hdr, body, 2 * w.samples.len())
        &&& 2 * w.samples.len() >= 128 + body.len()
    }
}

// ---------------------------------------------------------------------------
// The decode pipeline (C6, C7).
// ---------------------------------------------------------------------------

/// Decodes an extracted byte stream: parse the header, cut the body to
/// `payload_len`, decrypt if flagged, inflate.
pub fn decode_extracted(stream: &Vec<u8>, key: Option<&Vec<u8>>) -> (r: Result<
    DecodeOutput,
    CodecError,
>)
    ensures
        decode_matches(stream@, key_view(key), r),
{
    let header = match Header::read_from_stream(stream) {
        Ok(h) => h,
        Err(e) => {
            return Err(e);
        },
    };
    let slen: usize = stream.len();
    if header.payload_len > (slen as u64) - 128 {
        return Err(CodecError::PayloadTruncated);
    }
    let plen: usize = header.payload_len as usize;
    let mut raw = copy_range(stream, 128, plen);
    let encrypted: bool = header.flags & 1 == 1;
    if encrypted {
        encrypt_decrypt(&mut raw, header.timestamp, key);
    }
    match inflate_bytes(&raw) {
        Option::Some(p) => {
            let extension = header.extension_hint();
            Ok(DecodeOutput { payload: p, extension, version: header.version })
        },
        Option::None => Err(CodecError::CompressionError),
    }
}

/// Decodes a carrier file: extracts the hidden stream of the matching
/// container kind and runs the extract pipeline on it.
///
/// Fails with `UnsupportedContainer` for an unknown kind, `IoError` where
/// the carrier cannot be decoded as its medium, and otherwise exactly as
/// `decode_of_stream` says.
pub fn decode_stream(input: &Vec<u8>, container_kind: &Vec<u8>, key: Option<&Vec<u8>>) -> (r:
    Result<DecodeOutput, CodecError>)
    ensures
        !is_png_tag(container_kind@) && !is_wav_ext(container_kind@) ==> r == Err::<
            DecodeOutput,
            CodecError,
        >(CodecError::UnsupportedContainer),
        is_png_tag(container_kind@) ==> match png16_decode_of(input@) {
            Option::Some(v) => decode_matches(png_low_bytes(v.pixels), key_view(key), r),
            Option::None => r == Err::<DecodeOutput, CodecError>(CodecError::IoError),
        },
        is_wav_ext(container_kind@) ==> match wav_decode_of(input@) {
            Option::Some(w) => if 2 * w.samples.len() <= usize::MAX {
                decode_matches(wav_low_bytes(w.samples), key_view(key), r)
            } else {
                r == Err::<DecodeOutput, CodecError>(CodecError::IoError)
            },
            Option::None => r == Err::<DecodeOutput, CodecError>(CodecError::IoError),
        },
{
    if tag_is_png(container_kind) {
        let img = match crate::image_io::decode_png16(input) {
            Option::Some(v) => v,
            Option::None => {
                return Err(CodecError::IoError);
            },
        };
        let stream = extract_rgba16(&img.pixels);
        decode_extracted(&stream, key)
    } else if tag_is_wav(container_kind) {
        let audio = match decode_wav(input) {
            Option::Some(w) => w,
            Option::None => {
                return Err(CodecError::IoError);
            },
        };
        if audio.samples.len() > usize::MAX / 2 {
            return Err(CodecError::IoError);
        }
        let stream = extract_wav32(&audio.samples);
        decode_extracted(&stream, key)
    } else {
        Err(CodecError::UnsupportedContainer)
    }
}

/// Reads only the frame header out of a carrier and reports whether the
/// hidden stream is encrypted. Anything that is not a PNG carrier is read
/// as a WAV carrier.
pub fn analyze_header(input: &Vec<u8>, container_kind: &Vec<u8>) -> (r: Result<bool, CodecError>)
    ensures
        is_png_tag(container_kind@) ==> match png16_decode_of(input@) {
            Option::Some(v) => analyze_matches(png_low_bytes(v.pixels), r),
            Option::None => r == Err::<bool, CodecError>(CodecError::IoError),
        },
        !is_png_tag(container_kind@) ==> match wav_decode_of(input@) {
            Option::Some(w) => if 2 * w.samples.len() <= usize::MAX {
                analyze_matches(wav_low_bytes(w.samples), r)
            } else {
                r == Err::<bool, CodecError>(CodecError::IoError)
            },
            Option::None => r == Err::<bool, CodecError>(CodecError::IoError),
        },
{
    let stream: Vec<u8> = if tag_is_png(container_kind) {
        let img = match crate::image_io::decode_png16(input) {
            Option::Some(v) => v,
            Option::None => {
                return Err(CodecError::IoError);
            },
        };
        extract_rgba16(&img.pixels)
    } else {
        let audio = match decode_wav(input) {
            Option::Some(w) => w,
            Option::None => {
                return Err(CodecError::IoError);
            },
        };
        if audio.samples.len() > usize::MAX / 2 {
            return Err(CodecError::IoError);
        }
        extract_wav32(&audio.samples)
    };
    let header = match Header::read_from_stream(&stream) {
        Ok(h) => h,
        Err(e) => {
            return Err(e);
        },
    };
    Ok(header.flags & 1 == 1)
}

/// Relates an extracted stream to what `analyze_header` returned for it.
pub open spec fn analyze_matches(s: Seq<u8>, r: Result<bool, CodecError>) -> bool {
    if s.len() >= 128 && magic_ok(s) {
        r is Ok && (r.unwrap() <==> stream_encrypted(s))
    } else {
        r == Err::<bool, CodecError>(CodecError::MalformedHeader)
    }
}

// ---------------------------------------------------------------------------
// The encode pipeline (C4, C5).
// ---------------------------------------------------------------------------

/// Rounding a value up to a multiple of `d` by ceiling division reaches at
/// least the value, and dividing exactly loses nothing.
proof fn lemma_ceil_div_mul(x: int, d: int)
    by (nonlinear_arith)
    requires
        d >= 1,
        x >= 0,
    ensures
        ((x + d - 1) / d) * d >= x,
        ((x + d - 1) / d) * d <= x + d - 1,
        ((x + d - 1) / d) * d % d == 0,
        x >= 1 ==> (x + d - 1) / d >= 1,
{
}

/// Growing both dimensions by a scale whose square covers the ratio gives
/// enough pixels for the whole stream.
proof fn lemma_expand_capacity(w: int, h: int, s: int, needed: int, ratio: int)
    by (nonlinear_arith)
    requires
        w >= 0,
        h >= 0,
        s >= 1,
        s * s >= ratio,
        ratio * (w * h) >= needed,
    ensures
        (w * s + 50) * (h * s + 50) >= needed,
        w * s + 50 > w,
        h * s + 50 > h,
{
}

/// Under a modest frame, the minimal scale keeps the grown dimensions and
/// the grown pixel count small, so the expansion path meets every machine
/// limit and the encoder's decodable-size bound.
proof fn lemma_expand_small(w: int, h: int, s: int, needed: int, ratio: int)
    requires
        1 <= w,
        1 <= h,
        w * h < needed,
        needed <= 0x4_0000,
        1 <= ratio,
        ratio * (w * h) <= needed + w * h - 1,
        1 <= s,
        s * s >= ratio,
        s == 1 || (s - 1) * (s - 1) < ratio,
    ensures
        w * s <= 0xC_0000,
        h * s <= 0xC_0000,
        (w * s + 50) * (h * s + 50) <= 0x0400_0000,
{
    assert(w * h >= 1 && w <= w * h && h <= w * h) by (nonlinear_arith)
        requires
            1 <= w,
            1 <= h,
    ;
    assert(ratio * (w * h) <= 2 * needed - 2);
    assert(s * s <= 4 * ratio) by (nonlinear_arith)
        requires
            1 <= s,
            1 <= ratio,
            s == 1 || (s - 1) * (s - 1) < ratio,
    ;
    assert(w * ratio <= ratio * (w * h)) by (nonlinear_arith)
        requires
            1 <= h,
            0 <= w,
            0 <= ratio,
    ;
    assert((w * s) * (w * s) <= 8 * needed * needed) by (nonlinear_arith)
        requires
            0 <= w,
            0 <= s,
            0 <= needed,
            s * s <= 4 * ratio,
            w * ratio <= 2 * needed - 2,
            w <= needed,
    ;
    assert(w * s <= 0xC_0000) by (nonlinear_arith)
        requires
            0 <= w * s,
            (w * s) * (w * s) <= 8 * needed * needed,
            needed <= 0x4_0000,
            0 <= needed,
    ;
    assert(h * ratio <= ratio * (w * h)) by (nonlinear_arith)
        requires
            1 <= w,
            0 <= h,
            0 <= ratio,
    ;
    assert((h * s) * (h * s) <= 8 * needed * needed) by (nonlinear_arith)
        requires
            0 <= h,
            0 <= s,
            0 <= needed,
            s * s <= 4 * ratio,
            h * ratio <= 2 * needed - 2,
            h <= needed,
    ;
    assert(h * s <= 0xC_0000) by (nonlinear_arith)
        requires
            0 <= h * s,
            (h * s) * (h * s) <= 8 * needed * needed,
            needed <= 0x4_0000,
            0 <= needed,
    ;
    assert((w * s) * (h * s) <= 4 * (ratio * (w * h))) by (nonlinear_arith)
        requires
            s * s <= 4 * ratio,
            1 <= w * h,
            0 <= ratio,
    ;
    assert((w * s) * (h * s) <= 0x20_0000);
    assert(1 <= w * s && 1 <= h * s) by (nonlinear_arith)
        requires
            1 <= w,
            1 <= h,
            1 <= s,
    ;
    assert(w * s <= 0x5B0 || h * s <= 0x5B0) by (nonlinear_arith)
        requires
            (w * s) * (h * s) <= 0x20_0000,
            1 <= w * s,
            1 <= h * s,
    ;
    assert((w * s + 50) * (h * s + 50) == (w * s) * (h * s) + 50 * (w * s) + 50 * (h * s) + 2500)
        by (nonlinear_arith);
    assert((w * s + 50) * (h * s + 50) <= 0x0400_0000);
}

/// The number of cover pixels a stream of `128 + body_len` bytes needs.
pub open spec fn needed_pixels(body_len: int) -> int {
    (130 + body_len) / 3
}

/// The number of cover samples a stream of `128 + body_len` bytes needs.
pub open spec fn needed_samples(body_len: int) -> int {
    (129 + body_len) / 2
}

/// A cover sample sequence extended to `n` samples with silence.
pub open spec fn padded_cover(c: Seq<i16>, n: int) -> Seq<i16> {
    if n <= c.len() {
        c
    } else {
        c + Seq::new((n - c.len()) as nat, |i: int| 0i16)
    }
}

/// Everything the PNG writer promises, given the decoded cover `c`: the
/// output carries exactly the stream and the cover (resampled if grown) in
/// its high bytes, success is owed on the stated domains, and every
/// failure past cover decoding is `IoError`. A cover over the decodable
/// pixel bound cannot become a carrier its own reader accepts, and is
/// refused.
pub open spec fn png_encode_post(
    c: crate::image_io::ImgView8,
    hdr: Seq<u8>,
    body: Seq<u8>,
    r: Result<Vec<u8>, CodecError>,
) -> bool {
    let needed = needed_pixels(body.len() as int);
    &&& (r is Ok ==> stream_embedded_png(hdr, body, r.unwrap()@))
    &&& (r is Ok ==> {
        let v = png16_decode_of(r.unwrap()@).unwrap();
        &&& v.width >= c.width
        &&& v.height >= c.height
        &&& (needed > c.width * c.height ==> v.width > c.width && v.height > c.height)
        &&& (if needed <= c.width * c.height {
            &&& v.width == c.width
            &&& v.height == c.height
            &&& v.pixels == crate::carrier::embedded_words(c.pixels, hdr, body)
        } else {
            v.pixels == crate::carrier::embedded_words(
                crate::image_io::lanczos3_of(c.pixels, c.width, c.height, v.width, v.height),
                hdr,
                body,
            )
        })
    })
    &&& (c.width > 0 && c.height > 0 && needed <= c.width * c.height && c.width * c.height
        <= 0x0400_0000 ==> r is Ok)
    &&& (needed <= c.width * c.height && c.width * c.height > 0x0400_0000 ==> r == Err::<
        Vec<u8>,
        CodecError,
    >(CodecError::IoError))
    &&& (c.width > 0 && c.height > 0 && needed <= 0x4_0000 && c.width * c.height <= 0x0400_0000
        ==> r is Ok)
    &&& (r is Err ==> r == Err::<Vec<u8>, CodecError>(CodecError::IoError))
}

/// Everything the WAV writer promises, given the parsed cover `cw`:
/// unsupported bit depths are refused, a header the 32-bit writer cannot
/// represent exactly (or a zero sample rate) is refused, success is owed
/// up to the stated sample bound, and the output carries exactly the
/// stream over the padded cover.
pub open spec fn wav_encode_post(
    cw: WavView,
    hdr: Seq<u8>,
    body: Seq<u8>,
    r: Result<Vec<u8>, CodecError>,
) -> bool {
    let bits_ok = cw.bits == 16 || cw.bits == 24 || cw.bits == 32;
    let fmt_ok = crate::audio_io::wav_fmt_ok32(cw.channels, cw.sample_rate);
    let needed = needed_samples(body.len() as int);
    let n0 = if cw.samples.len() >= needed {
        cw.samples.len() as int
    } else {
        needed
    };
    &&& (!bits_ok ==> r == Err::<Vec<u8>, CodecError>(CodecError::UnsupportedContainer))
    &&& (bits_ok && !fmt_ok ==> r == Err::<Vec<u8>, CodecError>(CodecError::IoError))
    &&& (bits_ok && fmt_ok && n0 > 0x3FFE_0000 ==> r == Err::<Vec<u8>, CodecError>(
        CodecError::IoError,
    ))
    &&& (bits_ok && fmt_ok && n0 <= 0x3FFE_0000 ==> r is Ok)
    &&& (r is Ok ==> stream_embedded_wav(hdr, body, r.unwrap()@))
    &&& (r is Ok ==> {
        let w = wav_decode_of(r.unwrap()@).unwrap();
        &&& w.channels == cw.channels
        &&& w.sample_rate == cw.sample_rate
        &&& n0 <= w.samples.len() <= 0x3FFF_0000
        &&& w.samples == wav_embedded(
            padded_cover(norm_samples_i16(cw), w.samples.len() as int),
            hdr,
            body,
        )
    })
}

/// Embeds a prepared stream into a PNG or JPEG cover, producing the carrier
/// PNG bytes. A cover with too few pixels is grown eagerly, before any
/// pixel is written, by the smallest sufficient integer scale plus a
/// 50-pixel margin on each side.
pub fn encode_as_png(container: &Vec<u8>, hdr: Vec<u8>, body: Vec<u8>) -> (r: Result<
    Vec<u8>,
    CodecError,
>)
    requires
        hdr@.len() == 128,
        body@.len() + 130 <= u64::MAX,
    ensures
        match rgba8_decode_of(container@) {
            Option::Some(c) => png_encode_post(c, hdr@, body@, r),
            Option::None => r == Err::<Vec<u8>, CodecError>(CodecError::IoError),
        },
{
    let cover0 = match decode_rgba8(container) {
        Option::Some(c) => c,
        Option::None => {
            return Err(CodecError::IoError);
        },
    };
    let total: u64 = 128 + (body.len() as u64);
    let needed: u64 = (total + 2) / 3;
    proof {
        crate::carrier::lemma_u32_mul_fits(cover0.width as nat, cover0.height as nat);
    }
    let cur: u64 = (cover0.width as u64) * (cover0.height as u64);
    proof {
        assert(cover0.width as int >= 1 && cover0.height as int >= 1 ==> (cover0.width as int) * (
        cover0.height as int) >= 1) by (nonlinear_arith);
    }
    let cover: crate::image_io::Rgba8Img = if needed > cur {
        if cur == 0 {
            return Err(CodecError::IoError);
        }
        let ratio: u64 = (needed + (cur - 1)) / cur;
        let s: u64 = ceil_sqrt(ratio);
        proof {
            lemma_ceil_div_mul(needed as int, cur as int);
            if needed <= 0x4_0000 {
                lemma_expand_small(
                    cover0.width as int,
                    cover0.height as int,
                    s as int,
                    needed as int,
                    ratio as int,
                );
            }
        }
        let nw64: u64 = match (cover0.width as u64).checked_mul(s) {
            Option::Some(v) => match v.checked_add(50) {
                Option::Some(v2) => v2,
                Option::None => {
                    return Err(CodecError::IoError);
                },
            },
            Option::None => {
                return Err(CodecError::IoError);
            },
        };
        let nh64: u64 = match (cover0.height as u64).checked_mul(s) {
            Option::Some(v) => match v.checked_add(50) {
                Option::Some(v2) => v2,
                Option::None => {
                    return Err(CodecError::IoError);
                },
            },
            Option::None => {
                return Err(CodecError::IoError);
            },
        };
        if nw64 > 0xFFFF_FFFF || nh64 > 0xFFFF_FFFF {
            return Err(CodecError::IoError);
        }
        proof {
            crate::carrier::lemma_u32_mul_fits(nw64 as nat, nh64 as nat);
        }
        let npx: u64 = nw64 * nh64;
        let npx4: u64 = match npx.checked_mul(4) {
            Option::Some(v) => v,
            Option::None => {
                return Err(CodecError::IoError);
            },
        };
        if npx4 > usize::MAX as u64 {
            return Err(CodecError::IoError);
        }
        proof {
            assert(4 * (nw64 as int) * (nh64 as int) == ((nw64 as int) * (nh64 as int)) * 4)
                by (nonlinear_arith);
            lemma_expand_capacity(
                cover0.width as int,
                cover0.height as int,
                s as int,
                needed as int,
                ratio as int,
            );
        }
        resize_rgba8(&cover0, nw64 as u32, nh64 as u32)
    } else {
        cover0
    };
    proof {
        lemma_ceil_div_mul(total as int, 3);
        assert(3 * ((cover.width as int) * (cover.height as int)) >= total as int);
        crate::carrier::lemma_u32_mul_fits(cover.width as nat, cover.height as nat);
    }
    let ghost hseq = hdr@;
    let ghost bseq = body@;
    if cover.width == 0 || cover.height == 0 {
        return Err(CodecError::IoError);
    }
    if (cover.width as u64) * (cover.height as u64) > 0x0400_0000 {
        return Err(CodecError::IoError);
    }
    let mut bs = ByteStream::new(hdr, body);
    let _cover_len: usize = cover.pixels.len();
    proof {
        assert(cover.pixels@.len() <= usize::MAX);
        lemma_quarters((cover.width as nat) * (cover.height as nat));
        assert(cover.pixels@.len() == 4 * ((cover.width as nat) * (cover.height as nat)))
            by (nonlinear_arith)
            requires
                cover.pixels@.len() == 4 * (cover.width as nat) * (cover.height as nat),
        ;
        assert(3 * ((cover.pixels@.len() as int) / 4) <= cover.pixels@.len());
    }
    let pixels = embed_rgba8(&cover, &mut bs);
    proof {
        lemma_png_extract_embed(cover.pixels@, hseq, bseq);
        assert(pixels@ =~= crate::carrier::embedded_words(cover.pixels@, hseq, bseq));
    }
    match encode_png16(cover.width, cover.height, &pixels) {
        Option::Some(out) => Ok(out),
        Option::None => {
            proof {
                assert(false);
            }
            Err(CodecError::IoError)
        },
    }
}

/// Embeds a prepared stream into a WAV cover, producing the carrier WAV
/// bytes: 32-bit integer PCM with the cover's channel count and sample
/// rate. A cover with too few samples is extended with silence, rounded up
/// to a whole number of inter-channel frames.
pub fn encode_as_wav(container: &Vec<u8>, hdr: Vec<u8>, body: Vec<u8>) -> (r: Result<
    Vec<u8>,
    CodecError,
>)
    requires
        hdr@.len() == 128,
        body@.len() + 130 <= u64::MAX,
    ensures
        match wav_decode_of(container@) {
            Option::Some(cw) => wav_encode_post(cw, hdr@, body@, r),
            Option::None => r == Err::<Vec<u8>, CodecError>(CodecError::IoError),
        },
{
    let audio = match decode_wav(container) {
        Option::Some(w) => w,
        Option::None => {
            return Err(CodecError::IoError);
        },
    };
    let mut cover: Vec<i16> = match normalize_wav(&audio) {
        Ok(v) => v,
        Err(e) => {
            return Err(e);
        },
    };
    proof {
        assert((audio.sample_rate as int) * 4 * (audio.channels as int) <= 0x3_FFFF_FFFC * 0xFFFF)
            by (nonlinear_arith)
            requires
                audio.sample_rate as int <= 0xFFFF_FFFF,
                audio.channels as int <= 0xFFFF,
        ;
    }
    let rate4: u64 = (audio.sample_rate as u64) * 4;
    let byte_rate: u64 = rate4 * (audio.channels as u64);
    let fmt_ok: bool = audio.sample_rate >= 1 && byte_rate <= 0xFFFF_FFFF && (audio.channels
        as u64) * 4 <= 0xFFFF;
    if !fmt_ok {
        return Err(CodecError::IoError);
    }
    let total: u64 = 128 + (body.len() as u64);
    let needed: u64 = (total + 1) / 2;
    let n0: u64 = if (cover.len() as u64) >= needed {
        cover.len() as u64
    } else {
        needed
    };
    if n0 > 0x3FFE_0000 {
        return Err(CodecError::IoError);
    }
    let ch: u64 = audio.channels as u64;
    let q: u64 = (n0 + (ch - 1)) / ch;
    proof {
        lemma_ceil_div_mul(n0 as int, ch as int);
        assert(((n0 as int + ch as int - 1) / (ch as int)) * (ch as int) <= n0 as int + ch as int
            - 1) by (nonlinear_arith)
            requires
                ch as int >= 1,
                n0 as int >= 0,
        ;
    }
    let padded: u64 = q * ch;
    let pn: usize = padded as usize;
    let ghost cover_base = cover@;
    while cover.len() < pn
        invariant
            pn as int <= 0x3FFF_0000,
            cover@ == padded_cover(cover_base, cover@.len() as int),
            cover_base.len() <= cover@.len() <= pn,
        decreases pn - cover@.len(),
    {
        cover.push(0);
        proof {
            assert(cover@ =~= padded_cover(cover_base, cover@.len() as int));
        }
    }
    proof {
        assert(cover@.len() == pn);
        assert(cover@ == padded_cover(cover_base, pn as int));
    }
    let ghost hseq = hdr@;
    let ghost bseq = body@;
    let mut bs = ByteStream::new(hdr, body);
    let samples = embed_wav16(&cover, &mut bs);
    proof {
        lemma_wav_extract_embed(cover@, hseq, bseq);
    }
    match encode_wav32(audio.channels, audio.sample_rate, &samples) {
        Option::Some(out) => Ok(out),
        Option::None => {
            proof {
                assert(false);
            }
            Err(CodecError::IoError)
        },
    }
}

/// Builds the frame for one encode: the serialized 128-byte header and the
/// compressed, optionally encrypted body. Handing a key implicitly turns
/// encryption on. Fails only where the compressed payload cannot be
/// counted in the 64-bit length field.
pub fn prepare_frame(
    payload: &Vec<u8>,
    key: Option<&Vec<u8>>,
    encrypt: bool,
    payload_ext: &Vec<u8>,
    timestamp: u64,
) -> (r: Result<(Vec<u8>, Vec<u8>), CodecError>)
    ensures
        ({
            let eff = encrypt || key is Some;
            let dlen = deflate_of(payload@).len();
            &&& inflate_of(deflate_of(payload@)) == Some(payload@)
            &&& (r is Ok <==> dlen + 130 <= u64::MAX)
            &&& (r is Err ==> r == Err::<(Vec<u8>, Vec<u8>), CodecError>(CodecError::IoError))
            &&& (r is Ok ==> {
                let (hdr, body) = r.unwrap();
                &&& hdr@ == wire_header(payload@, eff, timestamp, payload_ext@)
                &&& hdr@.len() == 128
                &&& body@ == wire_body(payload@, eff, timestamp, key_view(key))
                &&& body@.len() == dlen
                &&& sha256_of(deflate_of(payload@)).len() == 32
            })
        }),
{
    let mut compressed = deflate_bytes(payload);
    if compressed.len() as u64 > u64::MAX - 130 {
        return Err(CodecError::IoError);
    }
    let payload_len_u64: u64 = compressed.len() as u64;
    let hash = calculate_hash(&compressed);
    let eff: bool = encrypt || key.is_some();
    if eff {
        encrypt_decrypt(&mut compressed, timestamp, key);
    }
    let header = Header::new(payload_len_u64, eff, timestamp, hash, payload_ext);
    let hdr_bytes = header.to_bytes();
    proof {
        assert(hdr_bytes@ =~= wire_header(payload@, eff, timestamp, payload_ext@));
        assert(compressed@ == wire_body(payload@, eff, timestamp, key_view(key)));
    }
    Ok((hdr_bytes, compressed))
}

/// Encodes a payload into a carrier of the given kind: deflate, hash,
/// optionally encrypt, frame, embed. Handing a key implicitly turns
/// encryption on. The timestamp seeds the keystream and is written into
/// the header; any 64-bit value is accepted.
pub fn encode_stream(
    payload: &Vec<u8>,
    container: &Vec<u8>,
    container_kind: &Vec<u8>,
    key: Option<&Vec<u8>>,
    encrypt: bool,
    payload_ext: &Vec<u8>,
    timestamp: u64,
) -> (r: Result<Vec<u8>, CodecError>)
    ensures
        ({
            let kind = container_kind@;
            let eff = encrypt || key is Some;
            let dlen = deflate_of(payload@).len();
            let hdr = wire_header(payload@, eff, timestamp, payload_ext@);
            let body = wire_body(payload@, eff, timestamp, key_view(key));
            let known = is_png_tag(kind) || is_jpg_tag(kind) || is_wav_ext(kind);
            &&& (!known ==> r == Err::<Vec<u8>, CodecError>(CodecError::UnsupportedContainer))
            &&& (known ==> inflate_of(deflate_of(payload@)) == Some(payload@) && body.len()
                == dlen)
            &&& (known && dlen + 130 <= u64::MAX ==> sha256_of(deflate_of(payload@)).len() == 32)
            &&& (known && dlen + 130 > u64::MAX ==> r == Err::<Vec<u8>, CodecError>(
                CodecError::IoError,
            ))
            &&& ((is_png_tag(kind) || is_jpg_tag(kind)) && dlen + 130 <= u64::MAX
                ==> match rgba8_decode_of(container@) {
                Option::Some(c) => png_encode_post(c, hdr, body, r),
                Option::None => r == Err::<Vec<u8>, CodecError>(CodecError::IoError),
            })
            &&& (is_wav_ext(kind) && dlen + 130 <= u64::MAX ==> match wav_decode_of(container@) {
                Option::Some(cw) => wav_encode_post(cw, hdr, body, r),
                Option::None => r == Err::<Vec<u8>, CodecError>(CodecError::IoError),
            })
        }),
{
    let known_png: bool = tag_is_png(container_kind) || tag_is_jpg(container_kind);
    let known_wav: bool = tag_is_wav(container_kind);
    if !known_png && !known_wav {
        return Err(CodecError::UnsupportedContainer);
    }
    let (hdr_bytes, body) = match prepare_frame(payload, key, encrypt, payload_ext, timestamp) {
        Ok(parts) => parts,
        Err(e) => {
            return Err(e);
        },
    };
    if known_png {
        encode_as_png(container, hdr_bytes, body)
    } else {
        encode_as_wav(container, hdr_bytes, body)
    }
}

/// Recovers the cover image a PNG carrier was embedded into: the high byte
/// of every channel, saved as an 8-bit RGBA PNG.
pub fn restore_container_png(input: &Vec<u8>) -> (r: Result<Vec<u8>, CodecError>)
    ensures
        match png16_decode_of(input@) {
            Option::Some(v) => {
                &&& (v.width > 0 && v.height > 0 && v.width * v.height <= 0x0800_0000 ==> r is Ok)
                &&& (r is Ok ==> rgba8_decode_of(r.unwrap()@) == Some(
                    crate::image_io::ImgView8 {
                        width: v.width,
                        height: v.height,
                        pixels: crate::carrier::png_high_bytes(v.pixels),
                    },
                ))
                &&& (r is Err ==> r == Err::<Vec<u8>, CodecError>(CodecError::IoError))
            },
            Option::None => r == Err::<Vec<u8>, CodecError>(CodecError::IoError),
        },
{
    let img = match crate::image_io::decode_png16(input) {
        Option::Some(v) => v,
        Option::None => {
            return Err(CodecError::IoError);
        },
    };
    if img.width == 0 || img.height == 0 {
        return Err(CodecError::IoError);
    }
    proof {
        crate::carrier::lemma_u32_mul_fits(img.width as nat, img.height as nat);
    }
    if (img.width as u64) * (img.height as u64) > 0x0800_0000 {
        return Err(CodecError::IoError);
    }
    let high = crate::carrier::restore_cover_rgba8(&img.pixels);
    match crate::image_io::encode_png8(img.width, img.height, &high) {
        Option::Some(out) => Ok(out),
        Option::None => {
            proof {
                assert(false);
            }
            Err(CodecError::IoError)
        },
    }
}

/// Recovers the cover audio a WAV carrier was embedded into: the high 16
/// bits of every sample, saved as 16-bit integer PCM with the carrier's
/// channel count and sample rate.
pub fn restore_container_wav(input: &Vec<u8>) -> (r: Result<Vec<u8>, CodecError>)
    ensures
        match wav_decode_of(input@) {
            Option::Some(w) => {
                &&& (crate::audio_io::wav_fmt_ok16(w.channels, w.sample_rate) && w.samples.len()
                    * 2 + 128 < 0x1_0000_0000 ==> r is Ok)
                &&& (r is Ok ==> wav_decode_of(r.unwrap()@) == Some(
                    WavView {
                        channels: w.channels,
                        sample_rate: w.sample_rate,
                        bits: 16,
                        samples: crate::audio_io::extended_i16(
                            crate::carrier::wav_high_samples(w.samples),
                        ),
                    },
                ))
                &&& (r is Err ==> r == Err::<Vec<u8>, CodecError>(CodecError::IoError))
            },
            Option::None => r == Err::<Vec<u8>, CodecError>(CodecError::IoError),
        },
{
    let audio = match decode_wav(input) {
        Option::Some(w) => w,
        Option::None => {
            return Err(CodecError::IoError);
        },
    };
    proof {
        assert((audio.sample_rate as int) * 2 * (audio.channels as int) <= 0x1_FFFF_FFFE * 0xFFFF)
            by (nonlinear_arith)
            requires
                audio.sample_rate as int <= 0xFFFF_FFFF,
                audio.channels as int <= 0xFFFF,
        ;
    }
    let rate2: u64 = (audio.sample_rate as u64) * 2;
    let byte_rate: u64 = rate2 * (audio.channels as u64);
    let fmt_ok: bool = audio.sample_rate >= 1 && byte_rate <= 0xFFFF_FFFF && (audio.channels
        as u64) * 2 <= 0xFFFF;
    if !fmt_ok {
        return Err(CodecError::IoError);
    }
    if audio.samples.len() as u64 > 0x7FFF_FFBF {
        return Err(CodecError::IoError);
    }
    let high = crate::carrier::restore_cover_wav(&audio.samples);
    match crate::audio_io::encode_wav16(audio.channels, audio.sample_rate, &high) {
        Option::Some(out) => Ok(out),
        Option::None => {
            proof {
                assert(false);
            }
            Err(CodecError::IoError)
        },
    }
}

// ---------------------------------------------------------------------------
// The round-trip laws.
// ---------------------------------------------------------------------------

/// Round trip with padding tolerance, at the stream level: a stream that
/// begins with one encode's header and body decodes to exactly the original
/// payload — whatever its length beyond the frame, for every payload,
/// timestamp, encryption choice, and optional key. The first two
/// hypotheses are what the compressing wrapper establishes about the
/// deflate pair; `encode_stream` ensures them for every successful encode.
pub proof fn lemma_stream_round_trip(
    p: Seq<u8>,
    encrypt: bool,
    ts: u64,
    key: Option<Seq<u8>>,
    ext: Seq<u8>,
    n: nat,
)
    requires
        inflate_of(deflate_of(p)) == Some(p),
        deflate_of(p).len() + 130 <= u64::MAX,
        sha256_of(deflate_of(p)).len() == 32,
        n >= 128 + deflate_of(p).len(),
    ensures
        ({
            let eff = encrypt || key is Some;
            let s = stream_take(wire_header(p, eff, ts, ext), wire_body(p, eff, ts, key), n);
            &&& decode_of_stream(s, key) == Ok::<Seq<u8>, CodecError>(p)
            &&& stream_ext_hint(s) == trim_nul(ext_pad(ext))
            &&& stream_version(s) == 1u8
            &&& (stream_encrypted(s) <==> eff)
        }),
{
    let eff = encrypt || key is Some;
    let dlen = deflate_of(p).len();
    let hdr = wire_header(p, eff, ts, ext);
    let body = wire_body(p, eff, ts, key);
    let s = stream_take(hdr, body, n);
    lemma_header_bytes_fields(
        dlen as u64,
        1u8,
        effective_flags(eff),
        ts,
        sha256_of(deflate_of(p)),
        ext_pad(ext),
    );
    assert(s.subrange(4, 12) =~= hdr.subrange(4, 12));
    assert(s.subrange(14, 22) =~= hdr.subrange(14, 22));
    assert(s.subrange(54, 62) =~= hdr.subrange(54, 62));
    assert(magic_ok(s));
    assert(u64_from_le(s.subrange(4, 12)) == dlen as u64);
    assert(s.subrange(128, 128 + dlen as int) =~= body);
    assert(3u8 & 1 == 1) by (bit_vector);
    assert(2u8 & 1 == 0) by (bit_vector);
    if eff {
        crate::security::lemma_cipher_involution(deflate_of(p), ts, key);
    }
}

/// Round trip through a PNG carrier: any carrier a successful PNG encode
/// may produce decodes back to exactly the original payload, with the
/// extension hint and the encrypted flag it was written with.
pub proof fn lemma_png_round_trip(
    p: Seq<u8>,
    encrypt: bool,
    ts: u64,
    key: Option<Seq<u8>>,
    ext: Seq<u8>,
    out: Seq<u8>,
)
    requires
        inflate_of(deflate_of(p)) == Some(p),
        deflate_of(p).len() + 130 <= u64::MAX,
        sha256_of(deflate_of(p)).len() == 32,
        stream_embedded_png(
            wire_header(p, encrypt || key is Some, ts, ext),
            wire_body(p, encrypt || key is Some, ts, key),
            out,
        ),
    ensures
        ({
            let v = png16_decode_of(out).unwrap();
            let s = png_low_bytes(v.pixels);
            &&& decode_of_stream(s, key) == Ok::<Seq<u8>, CodecError>(p)
            &&& stream_ext_hint(s) == trim_nul(ext_pad(ext))
            &&& stream_version(s) == 1u8
            &&& (stream_encrypted(s) <==> (encrypt || key is Some))
        }),
{
    let v = png16_decode_of(out).unwrap();
    lemma_stream_round_trip(p, encrypt, ts, key, ext, 3 * (v.pixels.len() / 4));
}

/// Round trip through a WAV carrier: any carrier a successful WAV encode
/// may produce decodes back to exactly the original payload, with the
/// extension hint and the encrypted flag it was written with.
pub proof fn lemma_wav_round_trip(
    p: Seq<u8>,
    encrypt: bool,
    ts: u64,
    key: Option<Seq<u8>>,
    ext: Seq<u8>,
    out: Seq<u8>,
)
    requires
        inflate_of(deflate_of(p)) == Some(p),
        deflate_of(p).len() + 130 <= u64::MAX,
        sha256_of(deflate_of(p)).len() == 32,
        stream_embedded_wav(
            wire_header(p, encrypt || key is Some, ts, ext),
            wire_body(p, encrypt || key is Some, ts, key),
            out,
        ),
    ensures
        ({
            let w = wav_decode_of(out).unwrap();
            let s = wav_low_bytes(w.samples);
            &&& decode_of_stream(s, key) == Ok::<Seq<u8>, CodecError>(p)
            &&& stream_ext_hint(s) == trim_nul(ext_pad(ext))
            &&& stream_version(s) == 1u8
            &&& (stream_encrypted(s) <==> (encrypt || key is Some))
        }),
{
    let w = wav_decode_of(out).unwrap();
    lemma_stream_round_trip(p, encrypt, ts, key, ext, 2 * w.samples.len());
}

/// Decoding an encode's output returns exactly the encoded payload, for any
/// payload, PNG or JPEG cover, timestamp, encryption choice, and optional
/// key: the first three hypotheses are `encode_stream`'s guarantees about
/// its `Ok` output for a PNG-bound kind, the last is `decode_stream`'s
/// guarantee about its own result on that output.
pub proof fn lemma_codec_round_trip_png(
    p: Seq<u8>,
    encrypt: bool,
    ts: u64,
    key: Option<Seq<u8>>,
    ext: Seq<u8>,
    out: Seq<u8>,
    r: Result<DecodeOutput, CodecError>,
)
    requires
        inflate_of(deflate_of(p)) == Some(p),
        deflate_of(p).len() + 130 <= u64::MAX,
        sha256_of(deflate_of(p)).len() == 32,
        stream_embedded_png(
            wire_header(p, encrypt || key is Some, ts, ext),
            wire_body(p, encrypt || key is Some, ts, key),
            out,
        ),
        match png16_decode_of(out) {
            Option::Some(v) => decode_matches(png_low_bytes(v.pixels), key, r),
            Option::None => r == Err::<DecodeOutput, CodecError>(CodecError::IoError),
        },
    ensures
        r is Ok,
        r.unwrap().payload@ == p,
        r.unwrap().extension@ == trim_nul(ext_pad(ext)),
        r.unwrap().version == 1,
{
    lemma_png_round_trip(p, encrypt, ts, key, ext, out);
}

/// Decoding an encode's output returns exactly the encoded payload, for any
/// payload, WAV cover, timestamp, encryption choice, and optional key: the
/// hypotheses are the two pipeline contracts, as for the PNG carrier.
pub proof fn lemma_codec_round_trip_wav(
    p: Seq<u8>,
    encrypt: bool,
    ts: u64,
    key: Option<Seq<u8>>,
    ext: Seq<u8>,
    out: Seq<u8>,
    r: Result<DecodeOutput, CodecError>,
)
    requires
        inflate_of(deflate_of(p)) == Some(p),
        deflate_of(p).len() + 130 <= u64::MAX,
        sha256_of(deflate_of(p)).len() == 32,
        stream_embedded_wav(
            wire_header(p, encrypt || key is Some, ts, ext),
            wire_body(p, encrypt || key is Some, ts, key),
            out,
        ),
        match wav_decode_of(out) {
            Option::Some(w) => if 2 * w.samples.len() <= usize::MAX {
                decode_matches(wav_low_bytes(w.samples), key, r)
            } else {
                r == Err::<DecodeOutput, CodecError>(CodecError::IoError)
            },
            Option::None => r == Err::<DecodeOutput, CodecError>(CodecError::IoError),
        },
        wav_decode_of(out).unwrap().samples.len() <= 0x3FFF_0000,
    ensures
        r is Ok,
        r.unwrap().payload@ == p,
        r.unwrap().extension@ == trim_nul(ext_pad(ext)),
        r.unwrap().version == 1,
{
    assert(2 * wav_decode_of(out).unwrap().samples.len() <= usize::MAX);
    lemma_wav_round_trip(p, encrypt, ts, key, ext, out);
}

} // verus!
