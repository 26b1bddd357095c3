use vstd::prelude::*;

verus! {

// ---------------------------------------------------------------------------
// Deflate compression.
//
// The body of every frame is the payload run through raw deflate at the
// default level. The two names below stand for what flate2 computes; the
// one fact tying them together — deflate is losslessly invertible — is
// stated on the compressing wrapper.
// ---------------------------------------------------------------------------

/// The raw-deflate bytes of `data` at the default compression level.
pub uninterp spec fn deflate_of(data: Seq<u8>) -> Seq<u8>;

/// What inflating `data` yields: `Some` of the original bytes for a valid
/// deflate stream, `None` where inflation fails.
pub uninterp spec fn inflate_of(data: Seq<u8>) -> Option<Seq<u8>>;

/// Relies on flate2::write::DeflateEncoder at the default level: the output
/// is a function of the input bytes alone, and inflating it restores them.
/// Writing into a plain vector cannot fail.
#[verifier::external_body]
pub(crate) fn deflate_bytes(data: &Vec<u8>) -> (r: Vec<u8>)
    ensures
        r@ == deflate_of(data@),
        inflate_of(r@) == Some(data@),
{
    let mut enc = flate2::write::DeflateEncoder::new(Vec::new(), flate2::Compression::default());
    match std::io::Write::write_all(&mut enc, data.as_slice()) {
        Ok(()) => {},
        Err(_) => return Vec::new(),
    }
    match enc.finish() {
        Ok(v) => v,
        Err(_) => Vec::new(),
    }
}

/// Relies on flate2::read::DeflateDecoder: reading to the end yields the
/// inflated bytes of a valid raw-deflate stream and errors otherwise, a
/// function of the input bytes alone.
#[verifier::external_body]
pub(crate) fn inflate_bytes(data: &Vec<u8>) -> (r: Option<Vec<u8>>)
    ensures
        r is Some <==> inflate_of(data@) is Some,
        r is Some ==> r.unwrap()@ == inflate_of(data@).unwrap(),
{
    let mut dec = flate2::read::DeflateDecoder::new(data.as_slice());
    let mut out = Vec::new();
    match std::io::Read::read_to_end(&mut dec, &mut out) {
        Ok(_) => Some(out),
        Err(_) => None,
    }
}

} // verus!
