//! Container encoder layer: assembling a byte-exact RIFF/WAVE file from a
//! sample buffer and its format parameters.

use crate::blerp::float_bits::{
    narrow_f64_to_f32, spec_narrow_f64_to_f32, spec_widen_f32_to_f64, widen_f32_to_f64,
};
use crate::blerp::quantize::{
    quantize_i16_f32, quantize_i16_f64, quantize_i32_f32, quantize_i32_f64, quantize_i64_f32,
    quantize_i64_f64, quantize_i8_f32, quantize_i8_f64, spec_quantize_f32, spec_quantize_f64,
};
use crate::error::VoltError;
use vstd::bytes::*;
use vstd::prelude::*;

verus! {

/// How samples are stored in the data chunk: integer pulse-code modulation
/// or IEEE floating point.
#[derive(Clone, Copy, Debug, PartialEq, Eq, Structural)]
pub enum WaveAudioFormat {
    PulseCodeModulation,
    FloatingPoint,
}

/// The numeric tag that the WAVE format chunk uses for each audio format:
/// 1 for integer PCM, 3 for IEEE float.
pub open spec fn spec_format_tag(f: WaveAudioFormat) -> u16 {
    match f {
        WaveAudioFormat::PulseCodeModulation => 1u16,
        WaveAudioFormat::FloatingPoint => 3u16,
    }
}

impl From<WaveAudioFormat> for u16 {
    /// The format tag written at byte offset 20 of the header.
    fn from(value: WaveAudioFormat) -> (r: u16) {
        match value {
            WaveAudioFormat::PulseCodeModulation => 1,
            WaveAudioFormat::FloatingPoint => 3,
        }
    }
}

impl vstd::std_specs::convert::FromSpecImpl<WaveAudioFormat> for u16 {
    open spec fn obeys_from_spec() -> bool {
        true
    }

    open spec fn from_spec(t: WaveAudioFormat) -> u16 {
        spec_format_tag(t)
    }
}

/// The parameters that determine a WAVE header: everything about an export
/// except the samples themselves. `frame_count` is the number of samples
/// per channel.
#[derive(Clone, Copy, Debug, PartialEq, Eq, Structural)]
pub struct WaveFormatDescriptor {
    pub sample_rate: u32,
    pub channels: u16,
    pub bits_per_sample: u16,
    pub frame_count: u32,
    pub audio_format: WaveAudioFormat,
}

impl WaveFormatDescriptor {
    /// Bytes that one sample of one channel occupies in the data chunk.
    pub open spec fn spec_bytes_per_sample(&self) -> int {
        self.bits_per_sample as int / 8
    }

    /// Total size of the data chunk in bytes.
    pub open spec fn spec_data_length(&self) -> int {
        self.frame_count as int * self.channels as int * self.spec_bytes_per_sample()
    }

    /// The RIFF chunk-size field: total file size minus the 8 bytes of the
    /// RIFF tag and the field itself.
    pub open spec fn spec_file_length(&self) -> int {
        self.spec_data_length() + 36
    }

    /// Bytes streamed per second of audio.
    pub open spec fn spec_byte_rate(&self) -> int {
        self.sample_rate as int * self.channels as int * self.spec_bytes_per_sample()
    }

    /// Bytes per complete multi-channel frame.
    pub open spec fn spec_block_align(&self) -> int {
        self.channels as int * self.spec_bytes_per_sample()
    }

    /// A descriptor the encoder can accept: a recognized sample width, and
    /// derived sizes that fit their header fields.
    pub open spec fn valid(&self) -> bool {
        &&& (self.bits_per_sample == 8 || self.bits_per_sample == 16 || self.bits_per_sample == 32
            || self.bits_per_sample == 64)
        &&& self.spec_block_align() <= u16::MAX
        &&& self.spec_byte_rate() <= u32::MAX
        &&& self.spec_data_length() + 44 <= u32::MAX
    }

    /// Decides validity, so that unverified callers can test it before
    /// asking for a header.
    pub fn is_valid(&self) -> (r: bool)
        ensures
            r == self.valid(),
    {
        if !(self.bits_per_sample == 8 || self.bits_per_sample == 16 || self.bits_per_sample == 32
            || self.bits_per_sample == 64) {
            return false;
        }
        let bytes_per: u64 = (self.bits_per_sample / 8) as u64;
        proof {
            assert(self.channels as int * (self.bits_per_sample as int / 8) < 0x80_0000)
                by (nonlinear_arith)
                requires
                    self.channels <= 0xFFFF,
                    0 <= self.bits_per_sample as int / 8 <= 8,
            ;
        }
        let block_align: u64 = self.channels as u64 * bytes_per;
        proof {
            assert(self.sample_rate as int * (block_align as int) < 0x8000_0000_0000_0000)
                by (nonlinear_arith)
                requires
                    self.sample_rate <= 0xFFFF_FFFF,
                    block_align < 0x80_0000,
            ;
            assert(self.frame_count as int * (block_align as int) < 0x8000_0000_0000_0000)
                by (nonlinear_arith)
                requires
                    self.frame_count <= 0xFFFF_FFFF,
                    block_align < 0x80_0000,
            ;
            assert(self.sample_rate as int * (self.channels as int * (self.bits_per_sample as int
                / 8)) == self.spec_byte_rate()) by (nonlinear_arith);
            assert(self.frame_count as int * (self.channels as int * (self.bits_per_sample as int
                / 8)) == self.spec_data_length()) by (nonlinear_arith);
        }
        let byte_rate: u64 = self.sample_rate as u64 * block_align;
        let data_length: u64 = self.frame_count as u64 * block_align;
        block_align <= 0xFFFF && byte_rate <= 0xFFFF_FFFF && data_length + 44 <= 0xFFFF_FFFF
    }
}

/// The exact 44-byte prefix of the file: RIFF chunk header, format chunk,
/// and data chunk header, every multi-byte integer little-endian.
pub open spec fn spec_header_bytes(d: WaveFormatDescriptor) -> Seq<u8> {
    seq![0x52u8, 0x49u8, 0x46u8, 0x46u8]  // "RIFF"
    + spec_u32_to_le_bytes(d.spec_file_length() as u32)
    + seq![0x57u8, 0x41u8, 0x56u8, 0x45u8, 0x66u8, 0x6du8, 0x74u8, 0x20u8]  // "WAVEfmt "
    + spec_u32_to_le_bytes(16u32)
    + spec_u16_to_le_bytes(spec_format_tag(d.audio_format))
    + spec_u16_to_le_bytes(d.channels)
    + spec_u32_to_le_bytes(d.sample_rate)
    + spec_u32_to_le_bytes(d.spec_byte_rate() as u32)
    + spec_u16_to_le_bytes(d.spec_block_align() as u16)
    + spec_u16_to_le_bytes(d.bits_per_sample)
    + seq![0x64u8, 0x61u8, 0x74u8, 0x61u8]  // "data"
    + spec_u32_to_le_bytes(d.spec_data_length() as u32)
}

impl WaveFormatDescriptor {
    /// Assembles the 44-byte WAVE header this descriptor denotes.
    pub fn build_header(&self) -> (r: Vec<u8>)
        requires
            self.valid(),
        ensures
            r@ == spec_header_bytes(*self),
            r@.len() == 44,
    {
        proof {
            lemma_auto_spec_u16_to_from_le_bytes();
            lemma_auto_spec_u32_to_from_le_bytes();
        }
        let bytes_per: u64 = (self.bits_per_sample / 8) as u64;
        let ghost f = self.frame_count as int;
        let ghost c = self.channels as int;
        let ghost s = self.sample_rate as int;
        let ghost b = self.spec_bytes_per_sample();
        proof {
            assert(bytes_per as int == b);
            assert(f * c * b == self.spec_data_length());
            assert(s * c * b == self.spec_byte_rate());
            assert(f * c <= f * c * b && f * c * b == (f * c) * b) by (nonlinear_arith)
                requires
                    1 <= b,
                    0 <= f,
                    0 <= c,
            ;
            assert(s * c <= s * c * b && s * c * b == (s * c) * b) by (nonlinear_arith)
                requires
                    1 <= b,
                    0 <= s,
                    0 <= c,
            ;
        }
        let data_length: u32 = ((self.frame_count as u64 * self.channels as u64) * bytes_per)
            as u32;
        let file_length: u32 = data_length + 36;
        let byte_rate: u32 = ((self.sample_rate as u64 * self.channels as u64) * bytes_per) as u32;
        let block_align: u16 = (self.channels as u64 * bytes_per) as u16;

        let mut v: Vec<u8> = Vec::new();
        v.push(0x52);
        v.push(0x49);
        v.push(0x46);
        v.push(0x46);
        let mut field = u32_to_le_bytes(file_length);
        v.append(&mut field);
        v.push(0x57);
        v.push(0x41);
        v.push(0x56);
        v.push(0x45);
        v.push(0x66);
        v.push(0x6d);
        v.push(0x74);
        v.push(0x20);
        let mut field = u32_to_le_bytes(16);
        v.append(&mut field);
        let mut field = u16_to_le_bytes(u16::from(self.audio_format));
        v.append(&mut field);
        let mut field = u16_to_le_bytes(self.channels);
        v.append(&mut field);
        let mut field = u32_to_le_bytes(self.sample_rate);
        v.append(&mut field);
        let mut field = u32_to_le_bytes(byte_rate);
        v.append(&mut field);
        let mut field = u16_to_le_bytes(block_align);
        v.append(&mut field);
        let mut field = u16_to_le_bytes(self.bits_per_sample);
        v.append(&mut field);
        v.push(0x64);
        v.push(0x61);
        v.push(0x74);
        v.push(0x61);
        let mut field = u32_to_le_bytes(data_length);
        v.append(&mut field);
        proof {
            assert(v@ =~= spec_header_bytes(*self));
        }
        v
    }
}

/// The (audio format, bits per sample) pairs the encoder can produce:
/// integer PCM at 8, 16, 32 or 64 bits, IEEE float at 32 or 64 bits.
pub open spec fn spec_supported_combination(format: WaveAudioFormat, bits_per_sample: u16) -> bool {
    match format {
        WaveAudioFormat::PulseCodeModulation => bits_per_sample == 8 || bits_per_sample == 16
            || bits_per_sample == 32 || bits_per_sample == 64,
        WaveAudioFormat::FloatingPoint => bits_per_sample == 32 || bits_per_sample == 64,
    }
}

/// Decides whether the encoder supports the requested combination, before
/// anything is built or written.
pub fn supported_combination(format: WaveAudioFormat, bits_per_sample: u16) -> (r: bool)
    ensures
        r == spec_supported_combination(format, bits_per_sample),
{
    match format {
        WaveAudioFormat::PulseCodeModulation => bits_per_sample == 8 || bits_per_sample == 16
            || bits_per_sample == 32 || bits_per_sample == 64,
        WaveAudioFormat::FloatingPoint => bits_per_sample == 32 || bits_per_sample == 64,
    }
}

/// The data-chunk bytes of one 32-bit float sample (given by bit pattern):
/// quantized and stored two's-complement little-endian for PCM targets,
/// stored as its own or the widened 64-bit pattern for float targets.
pub open spec fn spec_sample_bytes_f32(s: u32, format: WaveAudioFormat, bits_per_sample: u16) -> Seq<
    u8,
>
    recommends
        spec_supported_combination(format, bits_per_sample),
{
    match format {
        WaveAudioFormat::PulseCodeModulation => {
            if bits_per_sample == 8 {
                seq![spec_quantize_f32(s, 127) as i8 as u8]
            } else if bits_per_sample == 16 {
                spec_u16_to_le_bytes(spec_quantize_f32(s, 32767) as i16 as u16)
            } else if bits_per_sample == 32 {
                spec_u32_to_le_bytes(spec_quantize_f32(s, 2147483647) as i32 as u32)
            } else {
                spec_u64_to_le_bytes(spec_quantize_f32(s, 9223372036854775807) as i64 as u64)
            }
        },
        WaveAudioFormat::FloatingPoint => {
            if bits_per_sample == 32 {
                spec_u32_to_le_bytes(s)
            } else {
                spec_u64_to_le_bytes(spec_widen_f32_to_f64(s))
            }
        },
    }
}

/// The whole data chunk for a buffer of 32-bit float samples, in sample
/// order.
pub open spec fn spec_data_bytes_f32(
    samples: Seq<u32>,
    format: WaveAudioFormat,
    bits_per_sample: u16,
) -> Seq<u8>
    decreases samples.len(),
{
    if samples.len() == 0 {
        Seq::empty()
    } else {
        spec_data_bytes_f32(samples.drop_last(), format, bits_per_sample)
            + spec_sample_bytes_f32(samples.last(), format, bits_per_sample)
    }
}

/// Every sample contributes exactly `bits_per_sample / 8` bytes.
pub proof fn lemma_data_bytes_f32_len(
    samples: Seq<u32>,
    format: WaveAudioFormat,
    bits_per_sample: u16,
)
    requires
        spec_supported_combination(format, bits_per_sample),
    ensures
        spec_data_bytes_f32(samples, format, bits_per_sample).len() == samples.len() * (
        bits_per_sample as int / 8),
    decreases samples.len(),
{
    lemma_auto_spec_u16_to_from_le_bytes();
    lemma_auto_spec_u32_to_from_le_bytes();
    lemma_auto_spec_u64_to_from_le_bytes();
    if samples.len() > 0 {
        lemma_data_bytes_f32_len(samples.drop_last(), format, bits_per_sample);
    }
}

/// Appends the data-chunk encoding of a 32-bit float sample buffer (each
/// sample by bit pattern) to `out`.
pub fn append_samples_f32(
    out: &mut Vec<u8>,
    samples: &Vec<u32>,
    format: WaveAudioFormat,
    bits_per_sample: u16,
)
    requires
        spec_supported_combination(format, bits_per_sample),
    ensures
        final(out)@ == old(out)@ + spec_data_bytes_f32(samples@, format, bits_per_sample),
{
    proof {
        lemma_auto_spec_u16_to_from_le_bytes();
        lemma_auto_spec_u32_to_from_le_bytes();
        lemma_auto_spec_u64_to_from_le_bytes();
    }
    let mut i: usize = 0;
    while i < samples.len()
        invariant
            i <= samples@.len(),
            spec_supported_combination(format, bits_per_sample),
            out@ == old(out)@ + spec_data_bytes_f32(samples@.take(i as int), format, bits_per_sample),
        decreases samples@.len() - i,
    {
        let s = samples[i];
        match format {
            WaveAudioFormat::PulseCodeModulation => {
                if bits_per_sample == 8 {
                    let q = quantize_i8_f32(s);
                    out.push(#[verifier::truncate] (q as u8));
                } else if bits_per_sample == 16 {
                    let q = quantize_i16_f32(s);
                    let mut bs = u16_to_le_bytes(#[verifier::truncate] (q as u16));
                    out.append(&mut bs);
                } else if bits_per_sample == 32 {
                    let q = quantize_i32_f32(s);
                    let mut bs = u32_to_le_bytes(#[verifier::truncate] (q as u32));
                    out.append(&mut bs);
                } else {
                    let q = quantize_i64_f32(s);
                    let mut bs = u64_to_le_bytes(#[verifier::truncate] (q as u64));
                    out.append(&mut bs);
                }
            },
            WaveAudioFormat::FloatingPoint => {
                if bits_per_sample == 32 {
                    let mut bs = u32_to_le_bytes(s);
                    out.append(&mut bs);
                } else {
                    let mut bs = u64_to_le_bytes(widen_f32_to_f64(s));
                    out.append(&mut bs);
                }
            },
        }
        proof {
            assert(samples@.take(i as int + 1).drop_last() =~= samples@.take(i as int));
            assert(samples@.take(i as int + 1).last() == samples@[i as int]);
            assert(out@ == old(out)@ + spec_data_bytes_f32(
                samples@.take(i as int + 1),
                format,
                bits_per_sample,
            ));
        }
        i = i + 1;
    }
    proof {
        assert(samples@.take(samples@.len() as int) =~= samples@);
    }
}

/// The data-chunk bytes of one 64-bit float sample (given by bit pattern):
/// quantized and stored two's-complement little-endian for PCM targets,
/// stored as its own or the narrowed 32-bit pattern for float targets.
pub open spec fn spec_sample_bytes_f64(s: u64, format: WaveAudioFormat, bits_per_sample: u16) -> Seq<
    u8,
>
    recommends
        spec_supported_combination(format, bits_per_sample),
{
    match format {
        WaveAudioFormat::PulseCodeModulation => {
            if bits_per_sample == 8 {
                seq![spec_quantize_f64(s, 127) as i8 as u8]
            } else if bits_per_sample == 16 {
                spec_u16_to_le_bytes(spec_quantize_f64(s, 32767) as i16 as u16)
            } else if bits_per_sample == 32 {
                spec_u32_to_le_bytes(spec_quantize_f64(s, 2147483647) as i32 as u32)
            } else {
                spec_u64_to_le_bytes(spec_quantize_f64(s, 9223372036854775807) as i64 as u64)
            }
        },
        WaveAudioFormat::FloatingPoint => {
            if bits_per_sample == 32 {
                spec_u32_to_le_bytes(spec_narrow_f64_to_f32(s))
            } else {
                spec_u64_to_le_bytes(s)
            }
        },
    }
}

/// The whole data chunk for a buffer of 64-bit float samples, in sample
/// order.
pub open spec fn spec_data_bytes_f64(
    samples: Seq<u64>,
    format: WaveAudioFormat,
    bits_per_sample: u16,
) -> Seq<u8>
    decreases samples.len(),
{
    if samples.len() == 0 {
        Seq::empty()
    } else {
        spec_data_bytes_f64(samples.drop_last(), format, bits_per_sample)
            + spec_sample_bytes_f64(samples.last(), format, bits_per_sample)
    }
}

/// Every sample contributes exactly `bits_per_sample / 8` bytes.
pub proof fn lemma_data_bytes_f64_len(
    samples: Seq<u64>,
    format: WaveAudioFormat,
    bits_per_sample: u16,
)
    requires
        spec_supported_combination(format, bits_per_sample),
    ensures
        spec_data_bytes_f64(samples, format, bits_per_sample).len() == samples.len() * (
        bits_per_sample as int / 8),
    decreases samples.len(),
{
    lemma_auto_spec_u16_to_from_le_bytes();
    lemma_auto_spec_u32_to_from_le_bytes();
    lemma_auto_spec_u64_to_from_le_bytes();
    if samples.len() > 0 {
        lemma_data_bytes_f64_len(samples.drop_last(), format, bits_per_sample);
    }
}

/// Appends the data-chunk encoding of a 64-bit float sample buffer (each
/// sample by bit pattern) to `out`.
pub fn append_samples_f64(
    out: &mut Vec<u8>,
    samples: &Vec<u64>,
    format: WaveAudioFormat,
    bits_per_sample: u16,
)
    requires
        spec_supported_combination(format, bits_per_sample),
    ensures
        final(out)@ == old(out)@ + spec_data_bytes_f64(samples@, format, bits_per_sample),
{
    proof {
        lemma_auto_spec_u16_to_from_le_bytes();
        lemma_auto_spec_u32_to_from_le_bytes();
        lemma_auto_spec_u64_to_from_le_bytes();
    }
    let mut i: usize = 0;
    while i < samples.len()
        invariant
            i <= samples@.len(),
            spec_supported_combination(format, bits_per_sample),
            out@ == old(out)@ + spec_data_bytes_f64(samples@.take(i as int), format, bits_per_sample),
        decreases samples@.len() - i,
    {
        let s = samples[i];
        match format {
            WaveAudioFormat::PulseCodeModulation => {
                if bits_per_sample == 8 {
                    let q = quantize_i8_f64(s);
                    out.push(#[verifier::truncate] (q as u8));
                } else if bits_per_sample == 16 {
                    let q = quantize_i16_f64(s);
                    let mut bs = u16_to_le_bytes(#[verifier::truncate] (q as u16));
                    out.append(&mut bs);
                } else if bits_per_sample == 32 {
                    let q = quantize_i32_f64(s);
                    let mut bs = u32_to_le_bytes(#[verifier::truncate] (q as u32));
                    out.append(&mut bs);
                } else {
                    let q = quantize_i64_f64(s);
                    let mut bs = u64_to_le_bytes(#[verifier::truncate] (q as u64));
                    out.append(&mut bs);
                }
            },
            WaveAudioFormat::FloatingPoint => {
                if bits_per_sample == 32 {
                    let mut bs = u32_to_le_bytes(narrow_f64_to_f32(s));
                    out.append(&mut bs);
                } else {
                    let mut bs = u64_to_le_bytes(s);
                    out.append(&mut bs);
                }
            },
        }
        proof {
            assert(samples@.take(i as int + 1).drop_last() =~= samples@.take(i as int));
            assert(samples@.take(i as int + 1).last() == samples@[i as int]);
            assert(out@ == old(out)@ + spec_data_bytes_f64(
                samples@.take(i as int + 1),
                format,
                bits_per_sample,
            ));
        }
        i = i + 1;
    }
    proof {
        assert(samples@.take(samples@.len() as int) =~= samples@);
    }
}

/// Encodes a complete WAVE file from a buffer of 64-bit float samples (each
/// given by its bit pattern): the 44-byte header followed by the data chunk.
/// Unsupported (format, bits per sample) combinations are rejected before
/// any byte is assembled, and nothing else fails. `sample_length` is the
/// frame count; the buffer holds `sample_length * channels` interleaved
/// samples.
pub fn encode_wav_file_f64(
    buffer: &Vec<u64>,
    sample_rate: u32,
    channels: u16,
    bits_per_sample: u16,
    sample_length: u32,
    audio_format: WaveAudioFormat,
) -> (r: Result<Vec<u8>, VoltError>)
    requires
        spec_supported_combination(audio_format, bits_per_sample) ==> (WaveFormatDescriptor {
            sample_rate,
            channels,
            bits_per_sample,
            frame_count: sample_length,
            audio_format,
        }).valid() && buffer@.len() == sample_length as int * channels as int,
    ensures
        ({
            let d = WaveFormatDescriptor {
                sample_rate,
                channels,
                bits_per_sample,
                frame_count: sample_length,
                audio_format,
            };
            &&& spec_supported_combination(audio_format, bits_per_sample) ==> (r matches Ok(bytes)
                && bytes@ == spec_header_bytes(d) + spec_data_bytes_f64(
                    buffer@,
                    audio_format,
                    bits_per_sample,
                ) && bytes@.len() == 44 + d.spec_data_length())
            &&& !spec_supported_combination(audio_format, bits_per_sample) ==> r === Err(
                VoltError::InvalidSampleFormat,
            )
        }),
{
    if !supported_combination(audio_format, bits_per_sample) {
        return Err(VoltError::InvalidSampleFormat);
    }
    let d = WaveFormatDescriptor {
        sample_rate,
        channels,
        bits_per_sample,
        frame_count: sample_length,
        audio_format,
    };
    let mut bytes = d.build_header();
    proof {
        lemma_data_bytes_f64_len(buffer@, audio_format, bits_per_sample);
        assert((sample_length as int * channels as int) * (bits_per_sample as int / 8)
            == d.spec_data_length());
    }
    append_samples_f64(&mut bytes, buffer, audio_format, bits_per_sample);
    Ok(bytes)
}

/// Encodes a complete WAVE file from a buffer of 32-bit float samples (each
/// given by its bit pattern): the 44-byte header followed by the data chunk.
/// Unsupported (format, bits per sample) combinations are rejected before
/// any byte is assembled, and nothing else fails. `sample_length` is the
/// frame count; the buffer holds `sample_length * channels` interleaved
/// samples.
pub fn encode_wav_file_f32(
    buffer: &Vec<u32>,
    sample_rate: u32,
    channels: u16,
    bits_per_sample: u16,
    sample_length: u32,
    audio_format: WaveAudioFormat,
) -> (r: Result<Vec<u8>, VoltError>)
    requires
        spec_supported_combination(audio_format, bits_per_sample) ==> (WaveFormatDescriptor {
            sample_rate,
            channels,
            bits_per_sample,
            frame_count: sample_length,
            audio_format,
        }).valid() && buffer@.len() == sample_length as int * channels as int,
    ensures
        ({
            let d = WaveFormatDescriptor {
                sample_rate,
                channels,
                bits_per_sample,
                frame_count: sample_length,
                audio_format,
            };
            &&& spec_supported_combination(audio_format, bits_per_sample) ==> (r matches Ok(bytes)
                && bytes@ == spec_header_bytes(d) + spec_data_bytes_f32(
                    buffer@,
                    audio_format,
                    bits_per_sample,
                ) && bytes@.len() == 44 + d.spec_data_length())
            &&& !spec_supported_combination(audio_format, bits_per_sample) ==> r === Err(
                VoltError::InvalidSampleFormat,
            )
        }),
{
    if !supported_combination(audio_format, bits_per_sample) {
        return Err(VoltError::InvalidSampleFormat);
    }
    let d = WaveFormatDescriptor {
        sample_rate,
        channels,
        bits_per_sample,
        frame_count: sample_length,
        audio_format,
    };
    let mut bytes = d.build_header();
    proof {
        lemma_data_bytes_f32_len(buffer@, audio_format, bits_per_sample);
        assert((sample_length as int * channels as int) * (bits_per_sample as int / 8)
            == d.spec_data_length());
    }
    append_samples_f32(&mut bytes, buffer, audio_format, bits_per_sample);
    Ok(bytes)
}

/// A little-endian 32-bit field read back out of a byte buffer.
pub open spec fn spec_header_field_u32(h: Seq<u8>, offset: int) -> u32 {
    spec_u32_from_le_bytes(h.subrange(offset, offset + 4))
}

/// A little-endian 16-bit field read back out of a byte buffer.
pub open spec fn spec_header_field_u16(h: Seq<u8>, offset: int) -> u16 {
    spec_u16_from_le_bytes(h.subrange(offset, offset + 2))
}

/// Round trip: the header is exactly 44 bytes, and parsing its fields at
/// the documented offsets reproduces the descriptor's values — the literal
/// tags, the derived sizes, and every value the descriptor supplied.
pub proof fn lemma_header_roundtrip(d: WaveFormatDescriptor)
    requires
        d.valid(),
    ensures
        ({
            let h = spec_header_bytes(d);
            &&& h.len() == 44
            &&& h.subrange(0, 4) == seq![0x52u8, 0x49u8, 0x46u8, 0x46u8]
            &&& spec_header_field_u32(h, 4) == d.spec_file_length()
            &&& h.subrange(8, 16) == seq![
                0x57u8,
                0x41u8,
                0x56u8,
                0x45u8,
                0x66u8,
                0x6du8,
                0x74u8,
                0x20u8,
            ]
            &&& spec_header_field_u32(h, 16) == 16
            &&& spec_header_field_u16(h, 20) == spec_format_tag(d.audio_format)
            &&& spec_header_field_u16(h, 22) == d.channels
            &&& spec_header_field_u32(h, 24) == d.sample_rate
            &&& spec_header_field_u32(h, 28) == d.spec_byte_rate()
            &&& spec_header_field_u16(h, 32) == d.spec_block_align()
            &&& spec_header_field_u16(h, 34) == d.bits_per_sample
            &&& h.subrange(36, 40) == seq![0x64u8, 0x61u8, 0x74u8, 0x61u8]
            &&& spec_header_field_u32(h, 40) == d.spec_data_length()
        }),
{
    lemma_auto_spec_u16_to_from_le_bytes();
    lemma_auto_spec_u32_to_from_le_bytes();
    let h = spec_header_bytes(d);
    assert(h.subrange(0, 4) =~= seq![0x52u8, 0x49u8, 0x46u8, 0x46u8]);
    assert(h.subrange(4, 8) =~= spec_u32_to_le_bytes(d.spec_file_length() as u32));
    assert(h.subrange(8, 16) =~= seq![
        0x57u8,
        0x41u8,
        0x56u8,
        0x45u8,
        0x66u8,
        0x6du8,
        0x74u8,
        0x20u8,
    ]);
    assert(h.subrange(16, 20) =~= spec_u32_to_le_bytes(16u32));
    assert(h.subrange(20, 22) =~= spec_u16_to_le_bytes(spec_format_tag(d.audio_format)));
    assert(h.subrange(22, 24) =~= spec_u16_to_le_bytes(d.channels));
    assert(h.subrange(24, 28) =~= spec_u32_to_le_bytes(d.sample_rate));
    assert(h.subrange(28, 32) =~= spec_u32_to_le_bytes(d.spec_byte_rate() as u32));
    assert(h.subrange(32, 34) =~= spec_u16_to_le_bytes(d.spec_block_align() as u16));
    assert(h.subrange(34, 36) =~= spec_u16_to_le_bytes(d.bits_per_sample));
    assert(h.subrange(36, 40) =~= seq![0x64u8, 0x61u8, 0x74u8, 0x61u8]);
    assert(h.subrange(40, 44) =~= spec_u32_to_le_bytes(d.spec_data_length() as u32));
}

/// Length invariant: the chunk-size field of the header always reads
/// `data_length + 36`, and a whole encoded file — 44 header bytes plus the
/// data chunk — is exactly 8 bytes more than that field claims.
pub proof fn lemma_file_length_invariant(d: WaveFormatDescriptor)
    requires
        d.valid(),
    ensures
        spec_header_field_u32(spec_header_bytes(d), 4) == d.spec_data_length() + 36,
        44 + d.spec_data_length() == d.spec_file_length() + 8,
{
    lemma_header_roundtrip(d);
}

/// The chunk-size field of a whole encoded file counts every byte after the
/// first eight: for any data chunk of the size the descriptor announces,
/// parsing offset 4 of the file gives the file's length minus 8.
pub proof fn lemma_encoded_file_length(d: WaveFormatDescriptor, data: Seq<u8>)
    requires
        d.valid(),
        data.len() == d.spec_data_length(),
    ensures
        spec_header_field_u32(spec_header_bytes(d) + data, 4) == (spec_header_bytes(d)
            + data).len() - 8,
{
    lemma_header_roundtrip(d);
    assert((spec_header_bytes(d) + data).subrange(4, 8) =~= spec_header_bytes(d).subrange(4, 8));
}

/// Width independence of PCM encoding: widening every sample of a 32-bit
/// buffer to 64 bits and encoding the result gives byte for byte the data
/// chunk of the 32-bit buffer itself.
pub proof fn lemma_pcm_data_widen_consistent(samples: Seq<u32>, bits_per_sample: u16)
    requires
        spec_supported_combination(WaveAudioFormat::PulseCodeModulation, bits_per_sample),
    ensures
        spec_data_bytes_f64(
            samples.map_values(|s: u32| spec_widen_f32_to_f64(s)),
            WaveAudioFormat::PulseCodeModulation,
            bits_per_sample,
        ) == spec_data_bytes_f32(
            samples,
            WaveAudioFormat::PulseCodeModulation,
            bits_per_sample,
        ),
    decreases samples.len(),
{
    let format = WaveAudioFormat::PulseCodeModulation;
    let wide = samples.map_values(|s: u32| spec_widen_f32_to_f64(s));
    if samples.len() == 0 {
        assert(wide =~= Seq::<u64>::empty());
    } else {
        lemma_pcm_data_widen_consistent(samples.drop_last(), bits_per_sample);
        assert(wide.drop_last() =~= samples.drop_last().map_values(
            |s: u32| spec_widen_f32_to_f64(s),
        ));
        assert(wide.last() == spec_widen_f32_to_f64(samples.last()));
        crate::blerp::quantize::lemma_quantize_widen_consistent(samples.last(), 127);
        crate::blerp::quantize::lemma_quantize_widen_consistent(samples.last(), 32767);
        crate::blerp::quantize::lemma_quantize_widen_consistent(samples.last(), 2147483647);
        crate::blerp::quantize::lemma_quantize_widen_consistent(samples.last(), 9223372036854775807);
        assert(spec_data_bytes_f64(wide, format, bits_per_sample) == spec_data_bytes_f64(
            wide.drop_last(),
            format,
            bits_per_sample,
        ) + spec_sample_bytes_f64(wide.last(), format, bits_per_sample));
    }
}

/// Determinism: the encoder's output is a function of the buffer and the
/// descriptor alone, so two runs over identical inputs are byte-identical.
pub proof fn lemma_encode_deterministic_f32(
    b1: Seq<u8>,
    b2: Seq<u8>,
    buffer: Seq<u32>,
    d: WaveFormatDescriptor,
)
    requires
        b1 == spec_header_bytes(d) + spec_data_bytes_f32(buffer, d.audio_format, d.bits_per_sample),
        b2 == spec_header_bytes(d) + spec_data_bytes_f32(buffer, d.audio_format, d.bits_per_sample),
    ensures
        b1 == b2,
{
}

/// Determinism of the 64-bit pipeline, as for the 32-bit one.
pub proof fn lemma_encode_deterministic_f64(
    b1: Seq<u8>,
    b2: Seq<u8>,
    buffer: Seq<u64>,
    d: WaveFormatDescriptor,
)
    requires
        b1 == spec_header_bytes(d) + spec_data_bytes_f64(buffer, d.audio_format, d.bits_per_sample),
        b2 == spec_header_bytes(d) + spec_data_bytes_f64(buffer, d.audio_format, d.bits_per_sample),
    ensures
        b1 == b2,
{
}

/// Builds the header for the given parameters. `sample_length` is the frame
/// count: the number of samples per channel.
pub fn form_wav_file_header(
    sample_rate: u32,
    channels: u16,
    bits_per_sample: u16,
    sample_length: u32,
    audio_format: WaveAudioFormat,
) -> (r: Result<Vec<u8>, VoltError>)
    requires
        (WaveFormatDescriptor {
            sample_rate,
            channels,
            bits_per_sample,
            frame_count: sample_length,
            audio_format,
        }).valid(),
    ensures
        (r matches Ok(h) && h@ == spec_header_bytes(
            WaveFormatDescriptor {
                sample_rate,
                channels,
                bits_per_sample,
                frame_count: sample_length,
                audio_format,
            },
        )),
{
    let d = WaveFormatDescriptor {
        sample_rate,
        channels,
        bits_per_sample,
        frame_count: sample_length,
        audio_format,
    };
    Ok(d.build_header())
}

} // verus!
