use sound_png::bytes::{pack_chunks, push_u64_le, read_u64_le, unpack_chunks};
use sound_png::compose::ByteStream;
use sound_png::errors::CodecError;
use sound_png::header::Header;
use sound_png::pipeline::decode_extracted;
use sound_png::security::{calculate_hash, encrypt_decrypt};

#[test]
fn test_header_roundtrip_fields() {
    // Serialize then parse yields an equal header; the timestamp is kept
    // across the full 64-bit range.
    let hash: Vec<u8> = (0..32).map(|i| i as u8).collect();
    let h = Header::new(123456789, true, u64::MAX, hash.clone(), &b"tar".to_vec());
    let chunks = h.to_u16_chunks();
    assert_eq!(chunks.len(), 64);
    let parsed = Header::from_u16_chunks(&chunks).unwrap();
    assert_eq!(parsed.magic, b"SPNG".to_vec());
    assert_eq!(parsed.version, 1);
    assert_eq!(parsed.flags, 3);
    assert_eq!(parsed.payload_len, 123456789);
    assert_eq!(parsed.timestamp, u64::MAX);
    assert_eq!(parsed.hash, hash);
    assert_eq!(parsed.extension, b"tar\0\0\0\0\0".to_vec());
}

#[test]
fn test_header_zero_timestamp() {
    let h = Header::new(0, false, 0, vec![0u8; 32], &Vec::new());
    let parsed = Header::from_u16_chunks(&h.to_u16_chunks()).unwrap();
    assert_eq!(parsed.timestamp, 0);
    assert_eq!(parsed.flags, 2);
    assert_eq!(parsed.payload_len, 0);
}

#[test]
fn test_header_too_short() {
    let chunks: Vec<u16> = vec![0x5053; 63];
    let r = Header::from_u16_chunks(&chunks);
    assert_eq!(r.err().unwrap(), CodecError::MalformedHeader);
}

#[test]
fn test_header_bad_magic() {
    let h = Header::new(5, false, 7, vec![1u8; 32], &b"bin".to_vec());
    let mut chunks = h.to_u16_chunks();
    chunks[0] = 0x0000;
    let r = Header::from_u16_chunks(&chunks);
    assert_eq!(r.err().unwrap(), CodecError::MalformedHeader);
}

#[test]
fn test_extension_trimming() {
    // A NUL-padded extension parses as its leading non-NUL prefix.
    let h = Header::new(1, false, 2, vec![0u8; 32], &b"png".to_vec());
    assert_eq!(h.extension_hint(), b"png".to_vec());
    let h2 = Header::new(1, false, 2, vec![0u8; 32], &b"filename".to_vec());
    assert_eq!(h2.extension_hint(), b"filename".to_vec());
    let h3 = Header::new(1, false, 2, vec![0u8; 32], &Vec::new());
    assert_eq!(h3.extension_hint(), Vec::<u8>::new());
    // Longer than eight bytes: truncated to eight, then trimmed.
    let h4 = Header::new(1, false, 2, vec![0u8; 32], &b"verylongext".to_vec());
    assert_eq!(h4.extension_hint(), b"verylong".to_vec());
}

#[test]
fn test_cipher_symmetry() {
    // Applying the keystream twice is the identity.
    let original: Vec<u8> = (0..300).map(|i| (i * 13 % 256) as u8).collect();
    let key: Vec<u8> = (0..16).map(|i| (0xA0 + i) as u8).collect();
    let mut data = original.clone();
    encrypt_decrypt(&mut data, 42, Some(&key));
    assert_ne!(data, original);
    encrypt_decrypt(&mut data, 42, Some(&key));
    assert_eq!(data, original);

    let mut data2 = original.clone();
    encrypt_decrypt(&mut data2, 42, None);
    assert_ne!(data2, original);
    encrypt_decrypt(&mut data2, 42, None);
    assert_eq!(data2, original);

    // A different seed gives a different ciphertext.
    let mut data3 = original.clone();
    encrypt_decrypt(&mut data3, 43, None);
    let mut data4 = original.clone();
    encrypt_decrypt(&mut data4, 42, None);
    assert_ne!(data3, data4);
}

#[test]
fn test_one_shot_key() {
    // A key shorter than the data covers only its own length: the tail is
    // transformed by the algorithmic keystream alone, never by a cycled key.
    let original: Vec<u8> = vec![0x55; 64];
    let key: Vec<u8> = vec![0x0F; 8];
    let mut with_key = original.clone();
    encrypt_decrypt(&mut with_key, 7, Some(&key));
    let mut without_key = original.clone();
    encrypt_decrypt(&mut without_key, 7, None);
    // Beyond the key's 8 bytes the two agree; inside they differ by the key.
    assert_eq!(&with_key[8..], &without_key[8..]);
    for i in 0..8 {
        assert_eq!(with_key[i] ^ without_key[i], 0x0F);
    }
}

#[test]
fn test_calculate_hash_known_vector() {
    // SHA-256 of "abc", the FIPS 180-4 example digest.
    let digest = calculate_hash(&b"abc".to_vec());
    let expected: Vec<u8> = vec![
        0xba, 0x78, 0x16, 0xbf, 0x8f, 0x01, 0xcf, 0xea, 0x41, 0x41, 0x40, 0xde, 0x5d, 0xae, 0x22,
        0x23, 0xb0, 0x03, 0x61, 0xa3, 0x96, 0x17, 0x7a, 0x9c, 0xb4, 0x10, 0xff, 0x61, 0xf2, 0x00,
        0x15, 0xad,
    ];
    assert_eq!(digest, expected);
}

#[test]
fn test_byte_stream_order() {
    // Header bytes first, then the body, then zero padding, in order.
    let header: Vec<u8> = (0..128).map(|i| (i + 1) as u8).collect();
    let body: Vec<u8> = vec![0xAA, 0xBB, 0xCC];
    let mut bs = ByteStream::new(header.clone(), body.clone());
    assert_eq!(bs.total_len(), 131);
    for i in 0..128 {
        assert_eq!(bs.next_byte(), header[i]);
    }
    assert_eq!(bs.next_byte(), 0xAA);
    assert_eq!(bs.next_byte(), 0xBB);
    assert_eq!(bs.next_byte(), 0xCC);
    assert_eq!(bs.next_byte(), 0);
    assert_eq!(bs.next_byte(), 0);
}

#[test]
fn test_le_byte_helpers() {
    let mut out: Vec<u8> = Vec::new();
    push_u64_le(&mut out, 0x0102030405060708);
    assert_eq!(out, vec![8, 7, 6, 5, 4, 3, 2, 1]);
    assert_eq!(read_u64_le(&out, 0), 0x0102030405060708);
    let chunks = unpack_chunks(&out);
    assert_eq!(chunks, vec![0x0708, 0x0506, 0x0304, 0x0102]);
    assert_eq!(pack_chunks(&chunks), out);
}

#[test]
fn test_payload_truncated() {
    // A stream whose header promises more body than the stream holds.
    let h = Header::new(1000, false, 5, vec![2u8; 32], &b"bin".to_vec());
    let mut stream = h.to_bytes();
    stream.extend_from_slice(&[0u8; 10]);
    let r = decode_extracted(&stream, None);
    assert_eq!(r.err().unwrap(), CodecError::PayloadTruncated);
}

#[test]
fn test_compression_error() {
    // A body that is not a deflate stream: 0xFF opens a reserved block type.
    let h = Header::new(16, false, 5, vec![2u8; 32], &b"bin".to_vec());
    let mut stream = h.to_bytes();
    stream.extend_from_slice(&[0xFF; 16]);
    let r = decode_extracted(&stream, None);
    assert_eq!(r.err().unwrap(), CodecError::CompressionError);
}
