use sound_png::errors::CodecError;
use sound_png::pipeline::{analyze_header, decode_stream, encode_stream};

fn make_png_cover(width: u32, height: u32, rgba: [u8; 4]) -> Vec<u8> {
    let mut img = image::ImageBuffer::<image::Rgba<u8>, Vec<u8>>::new(width, height);
    for pixel in img.pixels_mut() {
        *pixel = image::Rgba(rgba);
    }
    let mut out: Vec<u8> = Vec::new();
    img.write_to(
        &mut std::io::Cursor::new(&mut out),
        image::ImageOutputFormat::Png,
    )
    .unwrap();
    out
}

fn make_wav_16bit(samples: &[i16], sample_rate: u32) -> Vec<u8> {
    let spec = hound::WavSpec {
        channels: 1,
        sample_rate,
        bits_per_sample: 16,
        sample_format: hound::SampleFormat::Int,
    };
    let mut cursor = std::io::Cursor::new(Vec::new());
    let mut writer = hound::WavWriter::new(&mut cursor, spec).unwrap();
    for &s in samples {
        writer.write_sample(s).unwrap();
    }
    writer.finalize().unwrap();
    cursor.into_inner()
}

fn tag(s: &str) -> Vec<u8> {
    s.as_bytes().to_vec()
}

#[test]
fn test_arbitrary_binary_in_png() {
    let payload: Vec<u8> = (0..1000).map(|i| (i % 255) as u8).collect();
    let cover = make_png_cover(100, 100, [0, 0, 0, 255]);
    let out = encode_stream(
        &payload,
        &cover,
        &tag("png"),
        None,
        false,
        &tag("bin"),
        1_700_000_000,
    )
    .unwrap();
    let dec = decode_stream(&out, &tag("png"), None).unwrap();
    assert_eq!(dec.payload, payload);
    assert_eq!(dec.extension, tag("bin"));
    assert_eq!(dec.version, 1);
}

#[test]
fn test_homomorphic_png_in_png() {
    let payload = make_png_cover(50, 50, [255, 0, 0, 255]);
    let cover = make_png_cover(200, 200, [0, 0, 255, 255]);
    let out = encode_stream(
        &payload,
        &cover,
        &tag("png"),
        None,
        false,
        &tag("png"),
        1_700_000_001,
    )
    .unwrap();
    let dec = decode_stream(&out, &tag("png"), None).unwrap();
    assert_eq!(dec.payload, payload);
    assert_eq!(dec.extension, tag("png"));
}

#[test]
fn test_homomorphic_wav_in_wav() {
    let data1: Vec<i16> = (0..100).map(|i| i as i16).collect();
    let payload = make_wav_16bit(&data1, 44100);
    let data2: Vec<i16> = (0..5000).map(|i| (i * 2) as i16).collect();
    let cover = make_wav_16bit(&data2, 44100);
    let out = encode_stream(
        &payload,
        &cover,
        &tag("wav"),
        None,
        false,
        &tag("wav"),
        1_700_000_002,
    )
    .unwrap();
    let dec = decode_stream(&out, &tag("wav"), None).unwrap();
    assert_eq!(dec.payload, payload);
    assert_eq!(dec.extension, tag("wav"));
    // The carrier is 32-bit integer PCM and keeps the cover's shape.
    let reader = hound::WavReader::new(std::io::Cursor::new(out)).unwrap();
    let spec = reader.spec();
    assert_eq!(spec.bits_per_sample, 32);
    assert_eq!(spec.channels, 1);
    assert_eq!(spec.sample_rate, 44100);
}

#[test]
fn test_key_required() {
    let payload = b"hello\n".to_vec();
    let cover = make_png_cover(1000, 1000, [10, 20, 30, 255]);
    let key: Vec<u8> = vec![0xA5; 32];
    let out = encode_stream(
        &payload,
        &cover,
        &tag("png"),
        Some(&key),
        true,
        &tag("txt"),
        1_700_000_003,
    )
    .unwrap();
    // Without the key the body inflates to garbage.
    let wrong = decode_stream(&out, &tag("png"), None);
    assert_eq!(wrong.err().unwrap(), CodecError::CompressionError);
    // With the key the exact payload comes back.
    let dec = decode_stream(&out, &tag("png"), Some(&key)).unwrap();
    assert_eq!(dec.payload, payload);
}

#[test]
fn test_analyze_only() {
    let payload = b"hello\n".to_vec();
    let cover = make_png_cover(1000, 1000, [10, 20, 30, 255]);
    let key: Vec<u8> = vec![0xA5; 32];
    let secret = encode_stream(
        &payload,
        &cover,
        &tag("png"),
        Some(&key),
        true,
        &tag("txt"),
        1_700_000_004,
    )
    .unwrap();
    assert_eq!(analyze_header(&secret, &tag("png")).unwrap(), true);

    let plain_payload: Vec<u8> = (0..1000).map(|i| (i % 255) as u8).collect();
    let plain_cover = make_png_cover(100, 100, [0, 0, 0, 255]);
    let plain = encode_stream(
        &plain_payload,
        &plain_cover,
        &tag("png"),
        None,
        false,
        &tag("bin"),
        1_700_000_005,
    )
    .unwrap();
    assert_eq!(analyze_header(&plain, &tag("png")).unwrap(), false);
}

#[test]
fn test_auto_expand() {
    let samples: Vec<i16> = (0..2500).map(|i| (i % 3000) as i16).collect();
    let payload = make_wav_16bit(&samples, 22050);
    let cover = make_png_cover(10, 10, [70, 70, 70, 255]);
    let out = encode_stream(
        &payload,
        &cover,
        &tag("png"),
        None,
        false,
        &tag("wav"),
        1_700_000_006,
    )
    .unwrap();
    let img = image::load_from_memory_with_format(&out, image::ImageFormat::Png)
        .unwrap()
        .into_rgba16();
    assert!(img.width() > 10);
    assert!(img.height() > 10);
    let dec = decode_stream(&out, &tag("png"), None).unwrap();
    assert_eq!(dec.payload, payload);
}

#[test]
fn test_padding_tolerance() {
    // The same payload in a minimal cover and in a much larger one decodes
    // to the same bytes; the decoder never reads past the frame.
    let payload: Vec<u8> = (0..200).map(|i| (i * 7 % 256) as u8).collect();
    let small_cover = make_png_cover(20, 20, [1, 2, 3, 255]);
    let large_cover = make_png_cover(300, 300, [4, 5, 6, 255]);
    let ts = 1_700_000_007;
    let small = encode_stream(&payload, &small_cover, &tag("png"), None, false, &tag("bin"), ts)
        .unwrap();
    let large = encode_stream(&payload, &large_cover, &tag("png"), None, false, &tag("bin"), ts)
        .unwrap();
    let dec_small = decode_stream(&small, &tag("png"), None).unwrap();
    let dec_large = decode_stream(&large, &tag("png"), None).unwrap();
    assert_eq!(dec_small.payload, payload);
    assert_eq!(dec_large.payload, payload);
}

#[test]
fn test_jpeg_cover() {
    // A JPEG cover feeds the PNG writer; the output is a PNG carrier.
    let mut img = image::ImageBuffer::<image::Rgb<u8>, Vec<u8>>::new(120, 80);
    for pixel in img.pixels_mut() {
        *pixel = image::Rgb([200, 100, 50]);
    }
    let mut cover: Vec<u8> = Vec::new();
    img.write_to(
        &mut std::io::Cursor::new(&mut cover),
        image::ImageOutputFormat::Jpeg(90),
    )
    .unwrap();
    let payload = b"jpeg cover test".to_vec();
    let out = encode_stream(
        &payload,
        &cover,
        &tag("jpg"),
        None,
        false,
        &tag("txt"),
        1_700_000_008,
    )
    .unwrap();
    let dec = decode_stream(&out, &tag("png"), None).unwrap();
    assert_eq!(dec.payload, payload);
}

#[test]
fn test_encrypted_without_key_file() {
    // encrypt=true without a key file: the algorithmic keystream alone.
    let payload: Vec<u8> = (0..512).map(|i| (i % 251) as u8).collect();
    let cover = make_png_cover(60, 60, [9, 9, 9, 255]);
    let out = encode_stream(
        &payload,
        &cover,
        &tag("png"),
        None,
        true,
        &tag("bin"),
        1_700_000_009,
    )
    .unwrap();
    assert_eq!(analyze_header(&out, &tag("png")).unwrap(), true);
    let dec = decode_stream(&out, &tag("png"), None).unwrap();
    assert_eq!(dec.payload, payload);
}

#[test]
fn test_unsupported_container() {
    let payload = b"x".to_vec();
    let cover = make_png_cover(10, 10, [0, 0, 0, 255]);
    let enc = encode_stream(
        &payload,
        &cover,
        &tag("mp3"),
        None,
        false,
        &tag("bin"),
        1_700_000_010,
    );
    assert_eq!(enc.err().unwrap(), CodecError::UnsupportedContainer);
    let dec = decode_stream(&cover, &tag("gif"), None);
    assert_eq!(dec.err().unwrap(), CodecError::UnsupportedContainer);
}

#[test]
fn test_malformed_header() {
    // A plain cover PNG hides no frame: its low bytes carry no magic.
    let cover = make_png_cover(30, 30, [0, 0, 0, 255]);
    let out = encode_stream(
        &Vec::new(),
        &cover,
        &tag("png"),
        None,
        false,
        &tag(""),
        1_700_000_011,
    )
    .unwrap();
    // Re-decode the *cover*, not the carrier: the cover is 8-bit RGBA, its
    // 16-bit upscaling has equal high and low bytes, so the magic fails.
    let dec = decode_stream(&cover, &tag("png"), None);
    assert_eq!(dec.err().unwrap(), CodecError::MalformedHeader);
    // The real carrier still decodes.
    let ok = decode_stream(&out, &tag("png"), None).unwrap();
    assert_eq!(ok.payload, Vec::<u8>::new());
}

#[test]
fn test_compression_effective() {
    // 10000 equal bytes must compress: the payload_len field in the frame
    // (bytes 4..12 of the hidden stream, little-endian) is far below the
    // raw length. This fails if the compressing wrapper handed its input
    // back unchanged.
    let payload: Vec<u8> = vec![0u8; 10000];
    let cover = make_png_cover(80, 80, [0, 0, 0, 255]);
    let out = encode_stream(
        &payload,
        &cover,
        &tag("png"),
        None,
        false,
        &tag("bin"),
        1_700_000_012,
    )
    .unwrap();
    let img = image::load_from_memory_with_format(&out, image::ImageFormat::Png)
        .unwrap()
        .into_rgba16();
    let raw = img.into_raw();
    let mut stream: Vec<u8> = Vec::new();
    for px in raw.chunks(4) {
        stream.push((px[0] & 0xFF) as u8);
        stream.push((px[1] & 0xFF) as u8);
        stream.push((px[2] & 0xFF) as u8);
    }
    assert_eq!(&stream[0..4], b"SPNG");
    let mut plen_bytes = [0u8; 8];
    plen_bytes.copy_from_slice(&stream[4..12]);
    let plen = u64::from_le_bytes(plen_bytes);
    assert!(plen > 0);
    assert!(plen < 1000, "compressed length {} is not small", plen);
    let dec = decode_stream(&out, &tag("png"), None).unwrap();
    assert_eq!(dec.payload, payload);
}

#[test]
fn test_restore_container_png() {
    // The high bytes of the carrier are the cover: restoring returns the
    // original opaque cover image exactly.
    let mut img = image::ImageBuffer::<image::Rgba<u8>, Vec<u8>>::new(33, 17);
    for (x, y, pixel) in img.enumerate_pixels_mut() {
        *pixel = image::Rgba([(x * 7 % 256) as u8, (y * 11 % 256) as u8, 77, 255]);
    }
    let mut cover: Vec<u8> = Vec::new();
    img.write_to(
        &mut std::io::Cursor::new(&mut cover),
        image::ImageOutputFormat::Png,
    )
    .unwrap();
    let payload = b"restore me".to_vec();
    let out = encode_stream(
        &payload,
        &cover,
        &tag("png"),
        None,
        false,
        &tag("txt"),
        1_700_000_013,
    )
    .unwrap();
    let restored = sound_png::pipeline::restore_container_png(&out).unwrap();
    let back = image::load_from_memory_with_format(&restored, image::ImageFormat::Png)
        .unwrap()
        .into_rgba8();
    assert_eq!(back.width(), 33);
    assert_eq!(back.height(), 17);
    let orig = image::load_from_memory_with_format(&cover, image::ImageFormat::Png)
        .unwrap()
        .into_rgba8();
    assert_eq!(back.into_raw(), orig.into_raw());
}

#[test]
fn test_restore_container_wav() {
    let data: Vec<i16> = (0..4000).map(|i| ((i * 17) % 30000 - 15000) as i16).collect();
    let cover = make_wav_16bit(&data, 32000);
    let payload = b"restore audio".to_vec();
    let out = encode_stream(
        &payload,
        &cover,
        &tag("wav"),
        None,
        false,
        &tag("txt"),
        1_700_000_014,
    )
    .unwrap();
    let restored = sound_png::pipeline::restore_container_wav(&out).unwrap();
    let reader = hound::WavReader::new(std::io::Cursor::new(restored)).unwrap();
    assert_eq!(reader.spec().bits_per_sample, 16);
    assert_eq!(reader.spec().sample_rate, 32000);
    let samples: Vec<i16> = reader
        .into_samples::<i16>()
        .map(|s| s.unwrap())
        .collect();
    assert_eq!(samples, data);
}
