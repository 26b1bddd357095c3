use vstd::prelude::*;

verus! {

/// Byte `i` of the logical encoded stream: header first, then the body,
/// then zero padding for as long as the carrier keeps asking.
pub open spec fn stream_at(hdr: Seq<u8>, body: Seq<u8>, i: int) -> u8 {
    if 0 <= i < hdr.len() {
        hdr[i]
    } else if i < hdr.len() + body.len() {
        body[i - hdr.len()]
    } else {
        0u8
    }
}

/// The first `n` bytes of the logical encoded stream.
pub open spec fn stream_take(hdr: Seq<u8>, body: Seq<u8>, n: nat) -> Seq<u8> {
    Seq::new(n, |i: int| stream_at(hdr, body, i))
}

/// `n` bytes of the logical encoded stream starting at position `off`.
pub open spec fn stream_slice(hdr: Seq<u8>, body: Seq<u8>, off: int, n: nat) -> Seq<u8> {
    Seq::new(n, |i: int| stream_at(hdr, body, off + i))
}

/// The producer a container writer pulls from: it hands out the serialized
/// header, then the (already compressed and encrypted) body, then zeros.
pub struct ByteStream {
    /// The 128 serialized header bytes.
    pub header: Vec<u8>,
    /// The body that follows the header on the wire.
    pub body: Vec<u8>,
    /// How many bytes have been handed out so far.
    pub pos: usize,
}

impl ByteStream {
    /// A fresh stream positioned at its first byte.
    pub fn new(header: Vec<u8>, body: Vec<u8>) -> (r: ByteStream)
        requires
            header@.len() == 128,
        ensures
            r.header@ == header@,
            r.body@ == body@,
            r.pos == 0,
    {
        ByteStream { header, body, pos: 0 }
    }

    /// The number of meaningful bytes: header plus body, without padding.
    pub fn total_len(&self) -> (r: u64)
        requires
            self.header@.len() + self.body@.len() <= u64::MAX,
        ensures
            r == self.header@.len() + self.body@.len(),
    {
        self.header.len() as u64 + self.body.len() as u64
    }

    /// Hands out the next stream byte; past the body this is the padding 0.
    pub fn next_byte(&mut self) -> (r: u8)
        requires
            old(self).pos < usize::MAX,
        ensures
            final(self).header@ == old(self).header@,
            final(self).body@ == old(self).body@,
            final(self).pos == old(self).pos + 1,
            r == stream_at(old(self).header@, old(self).body@, old(self).pos as int),
    {
        let p: usize = self.pos;
        self.pos = p + 1;
        if p < self.header.len() {
            self.header[p]
        } else {
            let q: usize = p - self.header.len();
            if q < self.body.len() {
                self.body[q]
            } else {
                0
            }
        }
    }
}

} // verus!
