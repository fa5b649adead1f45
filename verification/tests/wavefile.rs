//! The container encoder: header layout, data-chunk contents, rejection of
//! unsupported formats, and whole-file properties.

use volt::blerp::samples_mono_to_stereo;
use volt::blerp::wavefile::{
    encode_wav_file_f32, encode_wav_file_f64, form_wav_file_header, supported_combination,
    WaveAudioFormat, WaveFormatDescriptor,
};
use volt::VoltError;

fn u16_at(bytes: &[u8], offset: usize) -> u16 {
    u16::from_le_bytes([bytes[offset], bytes[offset + 1]])
}

fn u32_at(bytes: &[u8], offset: usize) -> u32 {
    u32::from_le_bytes([
        bytes[offset],
        bytes[offset + 1],
        bytes[offset + 2],
        bytes[offset + 3],
    ])
}

#[test]
fn header_round_trip() {
    let header = form_wav_file_header(44100, 2, 16, 1000, WaveAudioFormat::PulseCodeModulation)
        .unwrap();
    assert_eq!(header.len(), 44);
    // data: 1000 frames * 2 channels * 2 bytes
    let data_length = 4000u32;
    assert_eq!(&header[0..4], b"RIFF");
    assert_eq!(u32_at(&header, 4), data_length + 36);
    assert_eq!(&header[8..16], b"WAVEfmt ");
    assert_eq!(u32_at(&header, 16), 16);
    assert_eq!(u16_at(&header, 20), 1);
    assert_eq!(u16_at(&header, 22), 2);
    assert_eq!(u32_at(&header, 24), 44100);
    assert_eq!(u32_at(&header, 28), 44100 * 2 * 2);
    assert_eq!(u16_at(&header, 32), 4);
    assert_eq!(u16_at(&header, 34), 16);
    assert_eq!(&header[36..40], b"data");
    assert_eq!(u32_at(&header, 40), data_length);
}

#[test]
fn header_float_format_tag() {
    let header = form_wav_file_header(48000, 1, 32, 480, WaveAudioFormat::FloatingPoint).unwrap();
    assert_eq!(u16_at(&header, 20), 3);
    assert_eq!(u16_at(&header, 34), 32);
    assert_eq!(u32_at(&header, 28), 48000 * 4);
    assert_eq!(u32_at(&header, 40), 480 * 4);
}

#[test]
fn unsupported_combinations_are_rejected() {
    // PCM at 24 bits per sample
    let r = encode_wav_file_f32(&vec![0u32], 44100, 1, 24, 1, WaveAudioFormat::PulseCodeModulation);
    assert_eq!(r, Err(VoltError::InvalidSampleFormat));
    // float at 16 bits per sample
    let r = encode_wav_file_f64(&vec![0u64], 44100, 1, 16, 1, WaveAudioFormat::FloatingPoint);
    assert_eq!(r, Err(VoltError::InvalidSampleFormat));
    // float at 8 bits per sample
    let r = encode_wav_file_f32(&vec![0u32], 44100, 1, 8, 1, WaveAudioFormat::FloatingPoint);
    assert_eq!(r, Err(VoltError::InvalidSampleFormat));

    assert!(!supported_combination(WaveAudioFormat::PulseCodeModulation, 24));
    assert!(supported_combination(WaveAudioFormat::PulseCodeModulation, 8));
    assert!(supported_combination(WaveAudioFormat::FloatingPoint, 64));
    assert!(!supported_combination(WaveAudioFormat::FloatingPoint, 8));
}

#[test]
fn one_second_of_silence() {
    // 1 second, 44100 Hz, mono, 16-bit PCM, all samples zero
    let buffer = vec![0.0f32.to_bits(); 44100];
    let file = encode_wav_file_f32(
        &buffer,
        44100,
        1,
        16,
        44100,
        WaveAudioFormat::PulseCodeModulation,
    )
    .unwrap();
    assert_eq!(file.len(), 44 + 44100 * 2);
    assert_eq!(u32_at(&file, 24), 44100);
    assert_eq!(u16_at(&file, 34), 16);
    assert!(file[44..].iter().all(|&b| b == 0));
}

#[test]
fn empty_buffer_gives_header_only() {
    let file = encode_wav_file_f32(&Vec::new(), 44100, 2, 16, 0, WaveAudioFormat::PulseCodeModulation)
        .unwrap();
    assert_eq!(file.len(), 44);
    assert_eq!(u32_at(&file, 4), 36);
    assert_eq!(u32_at(&file, 40), 0);
}

#[test]
fn encoding_is_deterministic() {
    let samples = [0.5f32, -0.25, 2.0, -2.0, f32::NAN, f32::INFINITY, 1e-40, 0.1];
    let buffer: Vec<u32> = samples.iter().map(|s| s.to_bits()).collect();
    let once = encode_wav_file_f32(&buffer, 8000, 2, 16, 4, WaveAudioFormat::PulseCodeModulation)
        .unwrap();
    let twice = encode_wav_file_f32(&buffer, 8000, 2, 16, 4, WaveAudioFormat::PulseCodeModulation)
        .unwrap();
    assert_eq!(once, twice);
}

#[test]
fn file_length_field_matches_total_size() {
    for &(channels, bits, frames, format) in &[
        (1u16, 8u16, 5u32, WaveAudioFormat::PulseCodeModulation),
        (2, 16, 7, WaveAudioFormat::PulseCodeModulation),
        (2, 64, 3, WaveAudioFormat::PulseCodeModulation),
        (1, 32, 9, WaveAudioFormat::FloatingPoint),
        (2, 64, 2, WaveAudioFormat::FloatingPoint),
    ] {
        let buffer = vec![0.25f32.to_bits(); (frames * channels as u32) as usize];
        let file = encode_wav_file_f32(&buffer, 8000, channels, bits, frames, format).unwrap();
        let file_length_field = u32_at(&file, 4);
        let data_length = u32_at(&file, 40);
        assert_eq!(file_length_field, data_length + 36);
        assert_eq!(file.len() as u32, file_length_field + 8);
    }
}

#[test]
fn pcm16_data_bytes() {
    let buffer = vec![1.0f32.to_bits(), (-1.0f32).to_bits(), 0.5f32.to_bits()];
    let file = encode_wav_file_f32(&buffer, 8000, 1, 16, 3, WaveAudioFormat::PulseCodeModulation)
        .unwrap();
    let mut expected = Vec::new();
    expected.extend_from_slice(&32767i16.to_le_bytes());
    expected.extend_from_slice(&(-32767i16).to_le_bytes());
    expected.extend_from_slice(&16383i16.to_le_bytes());
    assert_eq!(&file[44..], &expected[..]);
}

#[test]
fn pcm8_data_bytes() {
    let buffer = vec![1.0f64.to_bits(), (-1.0f64).to_bits(), 0.0f64.to_bits()];
    let file = encode_wav_file_f64(&buffer, 8000, 1, 8, 3, WaveAudioFormat::PulseCodeModulation)
        .unwrap();
    assert_eq!(&file[44..], &[127u8, 129, 0]);
}

#[test]
fn float32_data_is_the_buffer_verbatim() {
    let samples = [0.5f32, -0.25, f32::NAN, 1e-40];
    let buffer: Vec<u32> = samples.iter().map(|s| s.to_bits()).collect();
    let file = encode_wav_file_f32(&buffer, 8000, 1, 32, 4, WaveAudioFormat::FloatingPoint)
        .unwrap();
    let mut expected = Vec::new();
    for s in &samples {
        expected.extend_from_slice(&s.to_le_bytes());
    }
    assert_eq!(&file[44..], &expected[..]);
}

#[test]
fn float64_data_from_f32_source_is_widened() {
    let samples = [0.1f32, -2.5, 1e-40];
    let buffer: Vec<u32> = samples.iter().map(|s| s.to_bits()).collect();
    let file = encode_wav_file_f32(&buffer, 8000, 1, 64, 3, WaveAudioFormat::FloatingPoint)
        .unwrap();
    let mut expected = Vec::new();
    for &s in &samples {
        expected.extend_from_slice(&(s as f64).to_le_bytes());
    }
    assert_eq!(&file[44..], &expected[..]);
}

#[test]
fn float32_data_from_f64_source_is_narrowed() {
    let samples = [0.1f64, -2.5, 1e300, 1e-46];
    let buffer: Vec<u64> = samples.iter().map(|s| s.to_bits()).collect();
    let file = encode_wav_file_f64(&buffer, 8000, 1, 32, 4, WaveAudioFormat::FloatingPoint)
        .unwrap();
    let mut expected = Vec::new();
    for &s in &samples {
        expected.extend_from_slice(&(s as f32).to_le_bytes());
    }
    assert_eq!(&file[44..], &expected[..]);
}

#[test]
fn float64_data_is_the_buffer_verbatim() {
    let samples = [0.5f64, -0.25];
    let buffer: Vec<u64> = samples.iter().map(|s| s.to_bits()).collect();
    let file = encode_wav_file_f64(&buffer, 8000, 1, 64, 2, WaveAudioFormat::FloatingPoint)
        .unwrap();
    let mut expected = Vec::new();
    for s in &samples {
        expected.extend_from_slice(&s.to_le_bytes());
    }
    assert_eq!(&file[44..], &expected[..]);
}

#[test]
fn pcm64_full_scale_hits_integer_max() {
    let buffer = vec![1.0f64.to_bits()];
    let file = encode_wav_file_f64(&buffer, 8000, 1, 64, 1, WaveAudioFormat::PulseCodeModulation)
        .unwrap();
    assert_eq!(&file[44..], &9223372036854775807i64.to_le_bytes());
}

#[test]
fn mono_to_stereo_duplicates_each_sample() {
    let samples = vec![0.5f32, -0.25];
    let stereo = samples_mono_to_stereo(&samples);
    assert_eq!(stereo, vec![0.5, 0.5, -0.25, -0.25]);

    let empty: Vec<f64> = Vec::new();
    assert_eq!(samples_mono_to_stereo(&empty).len(), 0);

    let patterns = vec![7u32, 9];
    assert_eq!(samples_mono_to_stereo(&patterns), vec![7, 7, 9, 9]);
}

#[test]
fn error_message_text() {
    assert_eq!(VoltError::InvalidSampleFormat.message(), "Invalid bits per sample!");
}

#[test]
fn descriptor_validity() {
    let good = WaveFormatDescriptor {
        sample_rate: 44100,
        channels: 2,
        bits_per_sample: 16,
        frame_count: 44100,
        audio_format: WaveAudioFormat::PulseCodeModulation,
    };
    assert!(good.is_valid());

    let odd_width = WaveFormatDescriptor { bits_per_sample: 12, ..good };
    assert!(!odd_width.is_valid());

    // data chunk would not fit the 32-bit size field
    let too_long = WaveFormatDescriptor {
        frame_count: u32::MAX,
        channels: 2,
        ..good
    };
    assert!(!too_long.is_valid());

    // byte rate would overflow its field
    let too_fast = WaveFormatDescriptor {
        sample_rate: u32::MAX,
        channels: 2,
        frame_count: 1,
        ..good
    };
    assert!(!too_fast.is_valid());
}

#[test]
fn descriptor_is_plain_data() {
    let d = WaveFormatDescriptor {
        sample_rate: 8000,
        channels: 1,
        bits_per_sample: 16,
        frame_count: 10,
        audio_format: WaveAudioFormat::PulseCodeModulation,
    };
    let copy = d;
    assert_eq!(d, copy);
}
