use vstd::prelude::*;

use crate::errors::CodecError;

verus! {

// ---------------------------------------------------------------------------
// PCM audio as plain data.
//
// A WAV file is its format fields plus its interleaved samples; samples are
// carried as 32-bit two's-complement bit patterns, sign-extended by the
// reader for narrower formats. hound parses and writes behind the wrappers
// below; sample normalization is verified code.
// ---------------------------------------------------------------------------

/// A parsed WAV file: format fields and samples as 32-bit bit patterns.
pub struct WavAudio {
    pub channels: u16,
    pub sample_rate: u32,
    /// Bits per sample as declared by the file: 8, 16, 24 or 32.
    pub bits: u16,
    pub samples: Vec<u32>,
}

/// The mathematical value of a parsed WAV file.
pub ghost struct WavView {
    pub channels: u16,
    pub sample_rate: u32,
    pub bits: u16,
    pub samples: Seq<u32>,
}

impl WavAudio {
    pub open spec fn view_of(self) -> WavView {
        WavView {
            channels: self.channels,
            sample_rate: self.sample_rate,
            bits: self.bits,
            samples: self.samples@,
        }
    }
}

/// What parsing WAV bytes with integer samples yields: `None` where the
/// bytes are not a WAV file with integer samples (float files included).
pub uninterp spec fn wav_decode_of(bytes: Seq<u8>) -> Option<WavView>;

/// Relies on hound::WavReader reading samples as i32: parsing is a function
/// of the bytes alone; integer samples come back sign-extended to 32 bits;
/// files with float samples fail. The reader rejects zero channels and a
/// sample count that is not a multiple of the channel count.
#[verifier::external_body]
pub fn decode_wav(bytes: &Vec<u8>) -> (r: Option<WavAudio>)
    ensures
        r is Some <==> wav_decode_of(bytes@) is Some,
        r is Some ==> r.unwrap().view_of() == wav_decode_of(bytes@).unwrap(),
        r is Some ==> r.unwrap().channels > 0 && r.unwrap().samples@.len() % (
        r.unwrap().channels as nat) == 0,
{
    let cursor = std::io::Cursor::new(bytes.as_slice());
    let mut reader = match hound::WavReader::new(cursor) { Ok(r) => r, Err(_) => return None };
    let spec = reader.spec();
    let mut samples: Vec<u32> = Vec::new();
    for s in reader.samples::<i32>() {
        match s { Ok(v) => samples.push(v as u32), Err(_) => return None }
    }
    let (channels, sample_rate, bits) = (spec.channels, spec.sample_rate, spec.bits_per_sample);
    Some(WavAudio { channels, sample_rate, bits, samples })
}

/// The format fields a 32-bit writer can represent faithfully: the header's
/// byte-rate field is `sample_rate * 4 * channels` in 32 bits, its
/// block-align field is `4 * channels` in 16 bits, and the block-align is
/// derived by dividing by the sample rate, which must therefore be nonzero.
pub open spec fn wav_fmt_ok32(channels: u16, sample_rate: u32) -> bool {
    &&& sample_rate >= 1
    &&& (sample_rate as int) * 4 * (channels as int) <= 0xFFFF_FFFF
    &&& (channels as int) * 4 <= 0xFFFF
}

/// Same for a 16-bit writer, whose samples take two bytes each.
pub open spec fn wav_fmt_ok16(channels: u16, sample_rate: u32) -> bool {
    &&& sample_rate >= 1
    &&& (sample_rate as int) * 2 * (channels as int) <= 0xFFFF_FFFF
    &&& (channels as int) * 2 <= 0xFFFF
}

/// Relies on hound::WavWriter with 32-bit integer samples into an in-memory
/// cursor: writing succeeds for these formats, is a function of the fields
/// and samples alone, and parsing the output restores them exactly. The
/// format bounds keep the header's 32-bit byte-rate and 16-bit block-align
/// fields exact, and a zero sample rate out: the header writer divides by
/// the sample rate.
#[verifier::external_body]
pub fn encode_wav32(channels: u16, sample_rate: u32, samples: &Vec<u32>) -> (r: Option<Vec<u8>>)
    requires
        channels > 0,
        wav_fmt_ok32(channels, sample_rate),
        samples@.len() % (channels as nat) == 0,
        samples@.len() * 4 + 128 < 0x1_0000_0000,
    ensures
        r is Some,
        r is Some ==> wav_decode_of(r.unwrap()@) == Some(
            WavView { channels, sample_rate, bits: 32, samples: samples@ },
        ),
{
    let fmt = hound::SampleFormat::Int;
    let spec = hound::WavSpec { channels, sample_rate, bits_per_sample: 32, sample_format: fmt };
    let mut cursor = std::io::Cursor::new(Vec::new());
    let mut writer = match hound::WavWriter::new(&mut cursor, spec) { Ok(w) => w, Err(_) => return None };
    for s in samples.iter() {
        if writer.write_sample(*s as i32).is_err() { return None; }
    }
    if writer.finalize().is_err() { return None; }
    Some(cursor.into_inner())
}

/// The 32-bit bit patterns that 16-bit PCM samples read back as.
pub open spec fn extended_i16(samples: Seq<i16>) -> Seq<u32> {
    Seq::new(samples.len(), |i: int| samples[i] as u32)
}

/// Relies on hound::WavWriter with 16-bit integer samples into an in-memory
/// cursor: writing succeeds for these formats, is a function of the fields
/// and samples alone, and parsing the output restores the samples
/// sign-extended to 32 bits. The format bounds keep the header's byte-rate
/// and block-align fields exact and a zero sample rate out, as for the
/// 32-bit writer.
#[verifier::external_body]
pub fn encode_wav16(channels: u16, sample_rate: u32, samples: &Vec<i16>) -> (r: Option<Vec<u8>>)
    requires
        channels > 0,
        wav_fmt_ok16(channels, sample_rate),
        samples@.len() % (channels as nat) == 0,
        samples@.len() * 2 + 128 < 0x1_0000_0000,
    ensures
        r is Some,
        r is Some ==> wav_decode_of(r.unwrap()@) == Some(
            WavView { channels, sample_rate, bits: 16, samples: extended_i16(samples@) },
        ),
{
    let fmt = hound::SampleFormat::Int;
    let spec = hound::WavSpec { channels, sample_rate, bits_per_sample: 16, sample_format: fmt };
    let mut cursor = std::io::Cursor::new(Vec::new());
    let mut writer = match hound::WavWriter::new(&mut cursor, spec) { Ok(w) => w, Err(_) => return None };
    for s in samples.iter() {
        if writer.write_sample(*s).is_err() { return None; }
    }
    if writer.finalize().is_err() { return None; }
    Some(cursor.into_inner())
}

/// A sample normalized to a 16-bit bit pattern: 24-bit samples keep their
/// top 16 bits, 32-bit samples theirs, 16-bit samples pass through.
pub open spec fn norm_sample(bits: u16, s: u32) -> u16 {
    if bits == 24 {
        (s >> 8) as u16
    } else if bits == 32 {
        (s >> 16) as u16
    } else {
        s as u16
    }
}

/// All samples of a parsed file, normalized to 16-bit patterns.
pub open spec fn norm_samples(w: WavView) -> Seq<u16> {
    Seq::new(w.samples.len(), |i: int| norm_sample(w.bits, w.samples[i]))
}

/// A normalized sample as a signed 16-bit PCM value (same bit pattern).
pub open spec fn norm_sample_i16(bits: u16, s: u32) -> i16 {
    norm_sample(bits, s) as i16
}

/// All samples of a parsed file as signed 16-bit PCM values.
pub open spec fn norm_samples_i16(w: WavView) -> Seq<i16> {
    Seq::new(w.samples.len(), |i: int| norm_sample_i16(w.bits, w.samples[i]))
}

/// `true` iff the extension tag is `wav` (lower case).
pub open spec fn is_wav_ext(s: Seq<u8>) -> bool {
    s == seq![0x77u8, 0x61u8, 0x76u8]
}

/// `true` iff the extension tag is `mp3` (lower case).
pub open spec fn is_mp3_ext(s: Seq<u8>) -> bool {
    s == seq![0x6du8, 0x70u8, 0x33u8]
}

/// Normalizes the samples of a parsed WAV file to signed 16-bit PCM.
pub fn normalize_wav(w: &WavAudio) -> (r: Result<Vec<i16>, CodecError>)
    ensures
        r is Ok <==> w.bits == 16 || w.bits == 24 || w.bits == 32,
        r is Ok ==> r.unwrap()@ == norm_samples_i16(w.view_of()),
        r is Err ==> r == Err::<Vec<i16>, CodecError>(CodecError::UnsupportedContainer),
{
    if !(w.bits == 16 || w.bits == 24 || w.bits == 32) {
        return Err(CodecError::UnsupportedContainer);
    }
    let n: usize = w.samples.len();
    let mut out: Vec<i16> = Vec::new();
    let mut i: usize = 0;
    while i < n
        invariant
            n == w.samples@.len(),
            i <= n,
            out@.len() == i,
            forall|t: int| 0 <= t < i ==> out@[t] == norm_sample_i16(w.bits, w.samples@[t]),
        decreases n - i,
    {
        let s: u32 = w.samples[i];
        let v: u16 = if w.bits == 24 {
            #[verifier::truncate] ((s >> 8) as u16)
        } else if w.bits == 32 {
            #[verifier::truncate] ((s >> 16) as u16)
        } else {
            #[verifier::truncate] (s as u16)
        };
        let p: i16 = #[verifier::truncate] (v as i16);
        out.push(p);
        i = i + 1;
    }
    proof {
        assert(out@ =~= norm_samples_i16(w.view_of()));
    }
    Ok(out)
}

/// Loads audio bytes as normalized 16-bit PCM patterns. Only WAV input with
/// 16-, 24- or 32-bit integer samples is accepted: MP3 is a lossy format
/// and is rejected as a cover, like every other extension.
pub fn load_audio_as_pcm(bytes: &Vec<u8>, extension: &Vec<u8>) -> (r: Result<
    Vec<i16>,
    CodecError,
>)
    ensures
        !is_wav_ext(extension@) ==> r == Err::<Vec<i16>, CodecError>(
            CodecError::UnsupportedContainer,
        ),
        is_wav_ext(extension@) ==> match wav_decode_of(bytes@) {
            Option::Some(w) => {
                &&& (r is Ok <==> w.bits == 16 || w.bits == 24 || w.bits == 32)
                &&& (r is Ok ==> r.unwrap()@ == norm_samples_i16(w))
                &&& (r is Err ==> r == Err::<Vec<i16>, CodecError>(
                    CodecError::UnsupportedContainer,
                ))
            },
            Option::None => r == Err::<Vec<i16>, CodecError>(CodecError::IoError),
        },
{
    let is_wav: bool = extension.len() == 3 && extension[0] == 0x77 && extension[1] == 0x61
        && extension[2] == 0x76;
    proof {
        assert(is_wav <==> is_wav_ext(extension@)) by {
            if extension@.len() == 3 {
                assert(extension@ =~= seq![0x77u8, 0x61u8, 0x76u8] <==> (extension@[0] == 0x77u8
                    && extension@[1] == 0x61u8 && extension@[2] == 0x76u8));
            }
        }
    }
    if !is_wav {
        return Err(CodecError::UnsupportedContainer);
    }
    match decode_wav(bytes) {
        Option::Some(w) => normalize_wav(&w),
        Option::None => Err(CodecError::IoError),
    }
}

} // verus!
