use vstd::prelude::*;

verus! {

/// The failures the codec distinguishes.
#[derive(Debug, Clone, Copy, PartialEq, Eq, Structural)]
pub enum CodecError {
    /// The carrier kind is neither built in nor claimed by an enabled plugin.
    UnsupportedContainer,
    /// Fewer than 128 bytes could be extracted, or the magic does not match.
    MalformedHeader,
    /// Fewer than `128 + payload_len` bytes could be extracted.
    PayloadTruncated,
    /// Inflating the body failed; usually corrupted data or a wrong key.
    CompressionError,
    /// The underlying medium could not be decoded or encoded.
    IoError,
    /// A carrier was required to grow but growing was refused or impossible.
    ResizeRequiredButRefused,
}

} // verus!
