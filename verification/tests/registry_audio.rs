use sound_png::audio_io::load_audio_as_pcm;
use sound_png::errors::CodecError;
use sound_png::plugins::{LoadedPlugin, PluginManager, PluginMetadata};

fn meta(name: &str) -> PluginMetadata {
    PluginMetadata {
        name: name.to_string(),
        description: "a test plugin".to_string(),
        version: "0.1.0".to_string(),
        author: "tests".to_string(),
    }
}

fn plugin(name: &str, enc_tags: &[&str], dec_tags: &[&str]) -> LoadedPlugin {
    LoadedPlugin {
        metadata: meta(name),
        enabled: false,
        has_encoder: !enc_tags.is_empty(),
        has_decoder: !dec_tags.is_empty(),
        encoder_tags: enc_tags.iter().map(|s| s.to_string()).collect(),
        decoder_tags: dec_tags.iter().map(|s| s.to_string()).collect(),
    }
}

#[test]
fn test_registry_dispatch() {
    let mut pm = PluginManager::new();
    let seq_idx = pm.register(plugin("sequence", &["seq_dir"], &["seq_dir"]));
    let py_idx = pm.register(plugin("bridge", &["seq_dir", "custom"], &["custom"]));

    // Disabled plugins claim nothing.
    assert_eq!(pm.get_encoder(&"seq_dir".to_string()), None);
    assert_eq!(pm.get_decoder_by_ext(&"seq_dir".to_string()), None);

    // Enabling makes the first enabled claimant win.
    pm.set_plugin_enabled(&"bridge".to_string(), true);
    assert_eq!(pm.get_encoder(&"seq_dir".to_string()), Some(py_idx));
    pm.set_plugin_enabled(&"sequence".to_string(), true);
    assert_eq!(pm.get_encoder(&"seq_dir".to_string()), Some(seq_idx));
    assert_eq!(pm.get_decoder_by_ext(&"custom".to_string()), Some(py_idx));

    // An unclaimed tag falls through to the built-in writers.
    assert_eq!(pm.get_encoder(&"png".to_string()), None);

    // Toggling off is honored.
    pm.set_plugin_enabled(&"sequence".to_string(), false);
    assert_eq!(pm.get_encoder(&"seq_dir".to_string()), Some(py_idx));
}

#[test]
fn test_registry_metadata_lists() {
    let mut pm = PluginManager::new();
    pm.register(plugin("one", &["a"], &[]));
    pm.register(plugin("two", &[], &["b"]));
    assert_eq!(pm.get_enabled_plugins_meta().len(), 0);
    let all = pm.get_all_plugins_meta();
    assert_eq!(all.len(), 2);
    assert_eq!(all[0].0.name, "one");
    assert!(!all[0].1);
    pm.set_plugin_enabled(&"two".to_string(), true);
    let enabled = pm.get_enabled_plugins_meta();
    assert_eq!(enabled.len(), 1);
    assert_eq!(enabled[0].name, "two");
    assert_eq!(enabled[0].version, "0.1.0");
}

fn wav_bytes(spec: hound::WavSpec, samples: &[i32]) -> Vec<u8> {
    let mut cursor = std::io::Cursor::new(Vec::new());
    let mut writer = hound::WavWriter::new(&mut cursor, spec).unwrap();
    for &s in samples {
        writer.write_sample(s).unwrap();
    }
    writer.finalize().unwrap();
    cursor.into_inner()
}

#[test]
fn test_load_audio_16bit() {
    let spec = hound::WavSpec {
        channels: 1,
        sample_rate: 8000,
        bits_per_sample: 16,
        sample_format: hound::SampleFormat::Int,
    };
    let bytes = wav_bytes(spec, &[0, 1, -1, 32767, -32768]);
    let pcm = load_audio_as_pcm(&bytes, &b"wav".to_vec()).unwrap();
    assert_eq!(pcm, vec![0i16, 1, -1, 32767, -32768]);
}

#[test]
fn test_load_audio_24bit_shifts() {
    let spec = hound::WavSpec {
        channels: 1,
        sample_rate: 8000,
        bits_per_sample: 24,
        sample_format: hound::SampleFormat::Int,
    };
    // 24-bit samples are normalized by an arithmetic shift of 8.
    let bytes = wav_bytes(spec, &[0x123456, -0x123456, 0x7FFFFF, -0x800000]);
    let pcm = load_audio_as_pcm(&bytes, &b"wav".to_vec()).unwrap();
    assert_eq!(
        pcm,
        vec![0x1234i16, (-0x123456i32 >> 8) as i16, 0x7FFF, -0x8000]
    );
}

#[test]
fn test_load_audio_32bit_shifts() {
    let spec = hound::WavSpec {
        channels: 2,
        sample_rate: 44100,
        bits_per_sample: 32,
        sample_format: hound::SampleFormat::Int,
    };
    let bytes = wav_bytes(spec, &[0x12345678, -0x12345678]);
    let pcm = load_audio_as_pcm(&bytes, &b"wav".to_vec()).unwrap();
    assert_eq!(pcm, vec![0x1234i16, (-0x12345678i32 >> 16) as i16]);
}

#[test]
fn test_load_audio_rejects_mp3_and_others() {
    let r = load_audio_as_pcm(&vec![0u8; 64], &b"mp3".to_vec());
    assert_eq!(r.err().unwrap(), CodecError::UnsupportedContainer);
    let r2 = load_audio_as_pcm(&vec![0u8; 64], &b"ogg".to_vec());
    assert_eq!(r2.err().unwrap(), CodecError::UnsupportedContainer);
}

#[test]
fn test_load_audio_rejects_garbage() {
    let r = load_audio_as_pcm(&vec![7u8; 64], &b"wav".to_vec());
    assert_eq!(r.err().unwrap(), CodecError::IoError);
}

#[test]
fn test_bit_preservation() {
    // A synthesized 16-bit RGBA raster with known low bytes survives a PNG
    // save and load with every low byte intact: the carrier primitive,
    // independent of the framing.
    let width = 100u32;
    let height = 100u32;
    let mut img = image::ImageBuffer::<image::Rgba<u16>, Vec<u16>>::new(width, height);
    for (x, y, pixel) in img.enumerate_pixels_mut() {
        let r = ((x as u16) << 8) | 0x12;
        let g = ((y as u16) << 8) | 0x34;
        let b = 0x8000 | 0x56;
        let a = 0xFFFF;
        *pixel = image::Rgba([r, g, b, a]);
    }
    let mut bytes: Vec<u8> = Vec::new();
    img.write_to(
        &mut std::io::Cursor::new(&mut bytes),
        image::ImageOutputFormat::Png,
    )
    .unwrap();
    let loaded = image::load_from_memory_with_format(&bytes, image::ImageFormat::Png)
        .unwrap()
        .into_rgba16();
    for (x, y, pixel) in loaded.enumerate_pixels() {
        assert!(
            pixel[0] & 0xFF == 0x12,
            "R channel corruption at {},{}",
            x,
            y
        );
        assert!(
            pixel[1] & 0xFF == 0x34,
            "G channel corruption at {},{}",
            x,
            y
        );
        assert!(
            pixel[2] & 0xFF == 0x56,
            "B channel corruption at {},{}",
            x,
            y
        );
    }
}

#[test]
fn test_zero_rate_cover_rejected() {
    // A crafted WAV whose header declares a sample rate of 0 parses (its
    // byte-rate field is consistently 0), but no WAV carrier can be written
    // with that rate: the encoder refuses it instead of diverging.
    let mut bytes: Vec<u8> = Vec::new();
    bytes.extend_from_slice(b"RIFF");
    bytes.extend_from_slice(&40u32.to_le_bytes());
    bytes.extend_from_slice(b"WAVE");
    bytes.extend_from_slice(b"fmt ");
    bytes.extend_from_slice(&16u32.to_le_bytes());
    bytes.extend_from_slice(&1u16.to_le_bytes()); // PCM
    bytes.extend_from_slice(&1u16.to_le_bytes()); // channels
    bytes.extend_from_slice(&0u32.to_le_bytes()); // sample rate 0
    bytes.extend_from_slice(&0u32.to_le_bytes()); // byte rate 0
    bytes.extend_from_slice(&2u16.to_le_bytes()); // block align
    bytes.extend_from_slice(&16u16.to_le_bytes()); // bits
    bytes.extend_from_slice(b"data");
    bytes.extend_from_slice(&4u32.to_le_bytes());
    bytes.extend_from_slice(&[1, 0, 2, 0]);
    // The reader accepts it.
    let reader = hound::WavReader::new(std::io::Cursor::new(bytes.clone())).unwrap();
    assert_eq!(reader.spec().sample_rate, 0);
    // The encoder refuses it rather than writing an unrepresentable header.
    let r = sound_png::pipeline::encode_stream(
        &b"x".to_vec(),
        &bytes,
        &b"wav".to_vec(),
        None,
        false,
        &b"bin".to_vec(),
        7,
    );
    assert_eq!(r.err().unwrap(), CodecError::IoError);
    // Restoring a cover from it is refused on the same ground.
    let r2 = sound_png::pipeline::restore_container_wav(&bytes);
    assert_eq!(r2.err().unwrap(), CodecError::IoError);
}
