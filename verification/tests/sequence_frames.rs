use sound_png::errors::CodecError;
use sound_png::image_io::Rgba8Img;
use sound_png::pipeline::prepare_frame;
use sound_png::sequence::{decode_sequence, encode_sequence};

fn cover(width: u32, height: u32, shade: u8) -> Rgba8Img {
    Rgba8Img {
        width,
        height,
        pixels: vec![shade; (width * height * 4) as usize],
    }
}

fn frame_parts(payload: &[u8], key: Option<&Vec<u8>>, encrypt: bool, ts: u64) -> (Vec<u8>, Vec<u8>) {
    prepare_frame(&payload.to_vec(), key, encrypt, &b"bin".to_vec(), ts).unwrap()
}

#[test]
fn test_sequence_round_trip() {
    // The stream spans three frames of different sizes, in order.
    let payload: Vec<u8> = (0..4000).map(|i| (i % 253) as u8).collect();
    let (hdr, body) = frame_parts(&payload, None, false, 77);
    let covers = vec![cover(10, 10, 40), cover(20, 15, 90), cover(30, 30, 160)];
    let frames = encode_sequence(&covers, hdr, body).unwrap();
    assert_eq!(frames.len(), 3);
    let dec = decode_sequence(&frames, None).unwrap();
    assert_eq!(dec.payload, payload);
    assert_eq!(dec.extension, b"bin".to_vec());
}

#[test]
fn test_sequence_encrypted_round_trip() {
    let payload = b"spread across frames, under a key".to_vec();
    let key: Vec<u8> = (0..64).map(|i| (i * 3) as u8).collect();
    let (hdr, body) = frame_parts(&payload, Some(&key), true, 99);
    let covers = vec![cover(12, 12, 10), cover(12, 12, 20)];
    let frames = encode_sequence(&covers, hdr, body).unwrap();
    let dec = decode_sequence(&frames, Some(&key)).unwrap();
    assert_eq!(dec.payload, payload);
    // Without the key the body inflates to garbage.
    let wrong = decode_sequence(&frames, None);
    assert_eq!(wrong.err().unwrap(), CodecError::CompressionError);
}

#[test]
fn test_sequence_too_small() {
    // 2 + 2 pixels carry 12 bytes; the 128-byte header alone cannot fit,
    // and a sequence is never grown.
    let payload = b"x".to_vec();
    let (hdr, body) = frame_parts(&payload, None, false, 1);
    let covers = vec![cover(1, 2, 0), cover(2, 1, 0)];
    let r = encode_sequence(&covers, hdr, body);
    assert_eq!(r.err().unwrap(), CodecError::ResizeRequiredButRefused);
}

#[test]
fn test_sequence_trailing_frames_untouched() {
    // A short payload leaves later frames carrying only padding zeros; the
    // decode still reads exactly the frame and returns the payload.
    let payload = b"tiny".to_vec();
    let (hdr, body) = frame_parts(&payload, None, false, 5);
    let covers = vec![cover(40, 40, 7), cover(40, 40, 7), cover(40, 40, 7)];
    let frames = encode_sequence(&covers, hdr, body).unwrap();
    let dec = decode_sequence(&frames, None).unwrap();
    assert_eq!(dec.payload, payload);
    // The last frame's hidden bytes are all padding.
    let img = image::load_from_memory_with_format(&frames[2], image::ImageFormat::Png)
        .unwrap()
        .into_rgba16();
    for px in img.into_raw().chunks(4) {
        assert_eq!(px[0] & 0xFF, 0);
        assert_eq!(px[1] & 0xFF, 0);
        assert_eq!(px[2] & 0xFF, 0);
    }
}
