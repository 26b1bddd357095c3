use vstd::prelude::*;

use crate::bytes::{
    bytes_to_chunks, chunks_to_bytes, lemma_bytes_roundtrip, lemma_u64_le_roundtrip, push_u64_le,
    read_u64_le, u64_from_le, u64_le, u64_le_byte, copy_range,
};
use crate::errors::CodecError;

verus! {

/// Number of 16-bit wire chunks the header occupies.
pub const HEADER_SIZE_SAMPLES: usize = 64;

/// Number of bytes the header occupies.
pub const HEADER_SIZE_BYTES: usize = 128;

/// Wire format version written by this library.
pub const VERSION: u8 = 1;

/// The four magic bytes `SPNG` that open every frame.
pub open spec fn magic_bytes() -> Seq<u8> {
    seq![0x53u8, 0x50u8, 0x4eu8, 0x47u8]
}

/// `true` iff the first four bytes of `b` are the magic.
pub open spec fn magic_ok(b: Seq<u8>) -> bool {
    &&& b.len() >= 4
    &&& b[0] == 0x53u8
    &&& b[1] == 0x50u8
    &&& b[2] == 0x4eu8
    &&& b[3] == 0x47u8
}

/// The extension field: the first eight bytes of `ext`, NUL padded to eight.
pub open spec fn ext_pad(ext: Seq<u8>) -> Seq<u8> {
    Seq::new(8, |i: int| if i < ext.len() { ext[i] } else { 0u8 })
}

/// The leading non-NUL prefix of `s`.
pub open spec fn trim_nul(s: Seq<u8>) -> Seq<u8>
    decreases s.len(),
{
    if s.len() > 0 && s[0] != 0 {
        seq![s[0]] + trim_nul(s.skip(1))
    } else {
        Seq::empty()
    }
}

/// The fixed 128-byte frame header that precedes the hidden body.
pub struct Header {
    /// Always the four magic bytes.
    pub magic: Vec<u8>,
    /// Wire format version; parsing accepts any value.
    pub version: u8,
    /// Bit 0: encrypted. Bit 1: compressed (always set on write).
    pub flags: u8,
    /// Length in bytes of the body that follows the header.
    pub payload_len: u64,
    /// Seconds since the Unix epoch at encode time; also the keystream seed.
    pub timestamp: u64,
    /// SHA-256 digest (32 bytes) of the compressed, pre-encryption body.
    pub hash: Vec<u8>,
    /// Payload filename extension, ASCII, NUL padded to eight bytes.
    pub extension: Vec<u8>,
}

/// Byte `i` of the 128-byte wire form, as a function of the field values.
pub open spec fn header_byte_of(
    payload_len: u64,
    version: u8,
    flags: u8,
    timestamp: u64,
    hash: Seq<u8>,
    ext: Seq<u8>,
    i: int,
) -> u8 {
    if 0 <= i < 4 {
        magic_bytes()[i]
    } else if i < 12 {
        u64_le_byte(payload_len, i - 4)
    } else if i == 12 {
        version
    } else if i == 13 {
        flags
    } else if i < 22 {
        u64_le_byte(timestamp, i - 14)
    } else if i < 54 {
        hash[i - 22]
    } else if i < 62 {
        ext[i - 54]
    } else {
        0u8
    }
}

/// The 128-byte wire form, as a function of the field values.
pub open spec fn header_bytes_of(
    payload_len: u64,
    version: u8,
    flags: u8,
    timestamp: u64,
    hash: Seq<u8>,
    ext: Seq<u8>,
) -> Seq<u8> {
    Seq::new(128, |i: int| header_byte_of(payload_len, version, flags, timestamp, hash, ext, i))
}

impl Header {
    /// Structural well-formedness: the fixed-size fields have their sizes.
    pub open spec fn wf(self) -> bool {
        &&& self.magic@ == magic_bytes()
        &&& self.hash@.len() == 32
        &&& self.extension@.len() == 8
    }

    /// Byte `i` of the 128-byte wire form.
    pub open spec fn spec_byte_at(self, i: int) -> u8 {
        header_byte_of(
            self.payload_len,
            self.version,
            self.flags,
            self.timestamp,
            self.hash@,
            self.extension@,
            i,
        )
    }

    /// The 128-byte wire form of the header.
    pub open spec fn spec_bytes(self) -> Seq<u8> {
        Seq::new(128, |i: int| self.spec_byte_at(i))
    }

    /// Builds a header for a body of `payload_len` bytes. The compressed
    /// flag is always set; the encrypted flag follows `encrypted`.
    pub fn new(payload_len: u64, encrypted: bool, timestamp: u64, hash: Vec<u8>, ext: &Vec<u8>) -> (r:
        Header)
        requires
            hash@.len() == 32,
        ensures
            r.wf(),
            r.version == 1,
            r.flags == if encrypted { 3u8 } else { 2u8 },
            r.payload_len == payload_len,
            r.timestamp == timestamp,
            r.hash@ == hash@,
            r.extension@ == ext_pad(ext@),
    {
        let mut magic: Vec<u8> = Vec::new();
        magic.push(0x53);
        magic.push(0x50);
        magic.push(0x4e);
        magic.push(0x47);
        let mut extension: Vec<u8> = Vec::new();
        let mut i: usize = 0;
        while i < 8
            invariant
                i <= 8,
                extension@.len() == i,
                forall|j: int| 0 <= j < i ==> extension@[j] == ext_pad(ext@)[j],
            decreases 8 - i,
        {
            if i < ext.len() {
                extension.push(ext[i]);
            } else {
                extension.push(0);
            }
            i = i + 1;
        }
        let flags: u8 = if encrypted {
            3
        } else {
            2
        };
        proof {
            assert(magic@ =~= magic_bytes());
            assert(extension@ =~= ext_pad(ext@));
        }
        Header { magic, version: 1, flags, payload_len, timestamp, hash, extension }
    }

    /// Serializes the header to its 128 wire bytes.
    pub fn to_bytes(&self) -> (r: Vec<u8>)
        requires
            self.wf(),
        ensures
            r@ == self.spec_bytes(),
            r@.len() == 128,
    {
        let mut out: Vec<u8> = Vec::new();
        out.push(0x53);
        out.push(0x50);
        out.push(0x4e);
        out.push(0x47);
        push_u64_le(&mut out, self.payload_len);
        out.push(self.version);
        out.push(self.flags);
        push_u64_le(&mut out, self.timestamp);
        assert(out@.len() == 22);
        let mut i: usize = 0;
        while i < 32
            invariant
                self.wf(),
                i <= 32,
                out@.len() == 22 + i,
                forall|j: int| 0 <= j < 22 + i ==> out@[j] == self.spec_byte_at(j),
            decreases 32 - i,
        {
            out.push(self.hash[i]);
            i = i + 1;
        }
        let mut i: usize = 0;
        while i < 8
            invariant
                self.wf(),
                i <= 8,
                out@.len() == 54 + i,
                forall|j: int| 0 <= j < 54 + i ==> out@[j] == self.spec_byte_at(j),
            decreases 8 - i,
        {
            out.push(self.extension[i]);
            i = i + 1;
        }
        let mut i: usize = 0;
        while i < 66
            invariant
                self.wf(),
                i <= 66,
                out@.len() == 62 + i,
                forall|j: int| 0 <= j < 62 + i ==> out@[j] == self.spec_byte_at(j),
            decreases 66 - i,
        {
            out.push(0);
            i = i + 1;
        }
        proof {
            assert(out@ =~= self.spec_bytes());
        }
        out
    }

    /// Serializes the header as 64 little-endian 16-bit wire chunks.
    pub fn to_u16_chunks(&self) -> (r: Vec<u16>)
        requires
            self.wf(),
        ensures
            r@.len() == 64,
            r@ == bytes_to_chunks(self.spec_bytes()),
            chunks_to_bytes(r@) == self.spec_bytes(),
    {
        let b = self.to_bytes();
        let r = crate::bytes::unpack_chunks(&b);
        proof {
            lemma_bytes_roundtrip(b@);
        }
        r
    }

    /// Parses a header from the first 128 bytes of `data`.
    ///
    /// Fails with `MalformedHeader` exactly when fewer than 128 bytes are
    /// present or the magic does not match; any version is accepted.
    pub fn read_from_stream(data: &Vec<u8>) -> (r: Result<Header, CodecError>)
        ensures
            r is Ok <==> data@.len() >= 128 && magic_ok(data@),
            r is Err ==> r == Err::<Header, CodecError>(CodecError::MalformedHeader),
            r is Ok ==> r.unwrap().wf() && parses_to(data@, r.unwrap()),
    {
        if data.len() < 128 {
            return Err(CodecError::MalformedHeader);
        }
        if !(data[0] == 0x53 && data[1] == 0x50 && data[2] == 0x4e && data[3] == 0x47) {
            return Err(CodecError::MalformedHeader);
        }
        let mut magic: Vec<u8> = Vec::new();
        magic.push(0x53);
        magic.push(0x50);
        magic.push(0x4e);
        magic.push(0x47);
        let payload_len: u64 = read_u64_le(data, 4);
        let version: u8 = data[12];
        let flags: u8 = data[13];
        let timestamp: u64 = read_u64_le(data, 14);
        let hash = copy_range(data, 22, 32);
        let extension = copy_range(data, 54, 8);
        proof {
            assert(magic@ =~= magic_bytes());
        }
        Ok(Header { magic, version, flags, payload_len, timestamp, hash, extension })
    }

    /// Parses a header from at least 64 little-endian 16-bit wire chunks.
    pub fn from_u16_chunks(chunks: &Vec<u16>) -> (r: Result<Header, CodecError>)
        ensures
            r is Ok <==> chunks@.len() >= 64 && magic_ok(chunks_to_bytes(chunks@)),
            r is Err ==> r == Err::<Header, CodecError>(CodecError::MalformedHeader),
            r is Ok ==> r.unwrap().wf() && parses_to(chunks_to_bytes(chunks@), r.unwrap()),
    {
        if chunks.len() < 64 {
            proof {
                assert(chunks_to_bytes(chunks@).len() < 128);
            }
            return Err(CodecError::MalformedHeader);
        }
        let b = crate::bytes::pack_chunks(chunks);
        Header::read_from_stream(&b)
    }

    /// The extension hint: the leading non-NUL prefix of the extension field.
    pub fn extension_hint(&self) -> (r: Vec<u8>)
        ensures
            r@ == trim_nul(self.extension@),
    {
        let mut r: Vec<u8> = Vec::new();
        let n: usize = self.extension.len();
        let mut i: usize = 0;
        while i < n && self.extension[i] != 0
            invariant
                n == self.extension@.len(),
                i <= n,
                r@ == self.extension@.take(i as int),
                forall|j: int| 0 <= j < i ==> self.extension@[j] != 0,
            decreases n - i,
        {
            r.push(self.extension[i]);
            proof {
                assert(r@ =~= self.extension@.take(i as int + 1));
            }
            i = i + 1;
        }
        proof {
            lemma_trim_prefix(self.extension@, i as int);
            if i < n {
                assert(self.extension@.skip(i as int)[0] == self.extension@[i as int]);
                assert(trim_nul(self.extension@.skip(i as int)) =~= Seq::<u8>::empty());
            } else {
                assert(self.extension@.skip(i as int) =~= Seq::<u8>::empty());
                assert(trim_nul(self.extension@.skip(i as int)) =~= Seq::<u8>::empty());
            }
            assert(trim_nul(self.extension@) =~= r@);
        }
        r
    }
}

/// Field-by-field relation between 128 wire bytes and a parsed header.
pub open spec fn parses_to(b: Seq<u8>, h: Header) -> bool {
    &&& h.magic@ == magic_bytes()
    &&& h.payload_len == u64_from_le(b.subrange(4, 12))
    &&& h.version == b[12]
    &&& h.flags == b[13]
    &&& h.timestamp == u64_from_le(b.subrange(14, 22))
    &&& h.hash@ == b.subrange(22, 54)
    &&& h.extension@ == b.subrange(54, 62)
}

/// If the first `i` bytes of `s` are non-NUL, trimming keeps exactly them
/// followed by whatever trimming the rest keeps.
pub proof fn lemma_trim_prefix(s: Seq<u8>, i: int)
    requires
        0 <= i <= s.len(),
        forall|j: int| 0 <= j < i ==> s[j] != 0,
    ensures
        trim_nul(s) == s.take(i) + trim_nul(s.skip(i)),
    decreases i,
{
    if i == 0 {
        assert(s.skip(0) =~= s);
        assert(s.take(0) + trim_nul(s) =~= trim_nul(s));
    } else {
        assert(s[0] != 0);
        let t = s.skip(1);
        lemma_trim_prefix(t, i - 1);
        assert(t.take(i - 1) =~= s.take(i).skip(1));
        assert(t.skip(i - 1) =~= s.skip(i));
        assert(seq![s[0]] + (s.take(i).skip(1) + trim_nul(s.skip(i))) =~= s.take(i) + trim_nul(
            s.skip(i),
        ));
    }
}

/// Serializing header fields and parsing the bytes back recovers every
/// field, for any 64-bit timestamp; the magic always matches.
pub proof fn lemma_header_bytes_fields(
    payload_len: u64,
    version: u8,
    flags: u8,
    timestamp: u64,
    hash: Seq<u8>,
    ext: Seq<u8>,
)
    requires
        hash.len() == 32,
        ext.len() == 8,
    ensures
        ({
            let b = header_bytes_of(payload_len, version, flags, timestamp, hash, ext);
            &&& b.len() == 128
            &&& magic_ok(b)
            &&& u64_from_le(b.subrange(4, 12)) == payload_len
            &&& b[12] == version
            &&& b[13] == flags
            &&& u64_from_le(b.subrange(14, 22)) == timestamp
            &&& b.subrange(22, 54) == hash
            &&& b.subrange(54, 62) == ext
        }),
{
    let b = header_bytes_of(payload_len, version, flags, timestamp, hash, ext);
    assert(b.subrange(4, 12) =~= u64_le(payload_len));
    lemma_u64_le_roundtrip(payload_len);
    assert(b.subrange(14, 22) =~= u64_le(timestamp));
    lemma_u64_le_roundtrip(timestamp);
    assert(b.subrange(22, 54) =~= hash);
    assert(b.subrange(54, 62) =~= ext);
}

/// Serializing a well-formed header and parsing the bytes back recovers
/// every field, for any 64-bit timestamp; the magic always matches.
pub proof fn lemma_header_roundtrip(h: Header)
    requires
        h.wf(),
    ensures
        magic_ok(h.spec_bytes()),
        parses_to(h.spec_bytes(), h),
{
    lemma_header_bytes_fields(
        h.payload_len,
        h.version,
        h.flags,
        h.timestamp,
        h.hash@,
        h.extension@,
    );
    assert(h.spec_bytes() =~= header_bytes_of(
        h.payload_len,
        h.version,
        h.flags,
        h.timestamp,
        h.hash@,
        h.extension@,
    ));
}

/// A NUL-free extension of at most eight bytes survives padding and
/// trimming unchanged.
pub proof fn lemma_extension_roundtrip(ext: Seq<u8>)
    requires
        ext.len() <= 8,
        forall|j: int| 0 <= j < ext.len() ==> ext[j] != 0,
    ensures
        trim_nul(ext_pad(ext)) == ext,
{
    let p = ext_pad(ext);
    lemma_trim_prefix(p, ext.len() as int);
    if ext.len() < 8 {
        assert(p.skip(ext.len() as int)[0] == 0);
        assert(trim_nul(p.skip(ext.len() as int)) =~= Seq::<u8>::empty());
    } else {
        assert(p.skip(ext.len() as int) =~= Seq::<u8>::empty());
        assert(trim_nul(p.skip(ext.len() as int)) =~= Seq::<u8>::empty());
    }
    assert(p.take(ext.len() as int) =~= ext);
    assert(trim_nul(p) =~= ext);
}

} // verus!
