//! The PCM-to-WAV encoder: a canonical 44-byte RIFF/WAVE header for
//! 16-bit PCM followed by the little-endian sample bytes, and a header
//! decoder that recovers the format fields.

use vstd::prelude::*;

verus! {

/// The two little-endian bytes of `x`, for `0 <= x < 65536`.
pub open spec fn le16(x: int) -> Seq<u8> {
    seq![(x % 256) as u8, ((x / 256) % 256) as u8]
}

/// The four little-endian bytes of `x`, for `0 <= x < 2^32`.
pub open spec fn le32(x: int) -> Seq<u8> {
    seq![
        (x % 256) as u8,
        ((x / 256) % 256) as u8,
        ((x / 65536) % 256) as u8,
        ((x / 16777216) % 256) as u8,
    ]
}

/// The ASCII bytes of `RIFF`.
pub open spec fn tag_riff() -> Seq<u8> {
    seq![82u8, 73u8, 70u8, 70u8]
}

/// The ASCII bytes of `WAVE`.
pub open spec fn tag_wave() -> Seq<u8> {
    seq![87u8, 65u8, 86u8, 69u8]
}

/// The ASCII bytes of `fmt `.
pub open spec fn tag_fmt() -> Seq<u8> {
    seq![102u8, 109u8, 116u8, 32u8]
}

/// The ASCII bytes of `data`.
pub open spec fn tag_data() -> Seq<u8> {
    seq![100u8, 97u8, 116u8, 97u8]
}

/// The unsigned 16-bit value with the same bit pattern as `s`.
pub open spec fn sample_u16(s: i16) -> int {
    if s >= 0 {
        s as int
    } else {
        s as int + 65536
    }
}

/// The little-endian bytes of a sequence of 16-bit samples.
pub open spec fn sample_bytes_spec(samples: Seq<i16>) -> Seq<u8>
    decreases samples.len(),
{
    if samples.len() == 0 {
        Seq::<u8>::empty()
    } else {
        sample_bytes_spec(samples.drop_last()) + le16(sample_u16(samples.last()))
    }
}

/// The 44-byte RIFF/WAVE header for 16-bit PCM with the given channel
/// count, sample rate, and payload size in bytes.
pub open spec fn wav_header_spec(channels: u16, sample_rate: u32, data_size: int) -> Seq<u8> {
    tag_riff() + le32(36 + data_size) + tag_wave() + tag_fmt() + le32(16) + le16(1) + le16(
        channels as int,
    ) + le32(sample_rate as int) + le32(sample_rate as int * channels as int * 2) + le16(
        channels as int * 2,
    ) + le16(16) + tag_data() + le32(data_size)
}

/// The complete WAV image: header, then sample bytes.
pub open spec fn wav_bytes_spec(samples: Seq<i16>, channels: u16, sample_rate: u32) -> Seq<u8> {
    wav_header_spec(channels, sample_rate, 2 * samples.len() as int) + sample_bytes_spec(samples)
}

/// Appends the two little-endian bytes of `x`.
fn push_le16(v: &mut Vec<u8>, x: u16)
    ensures
        final(v)@ == old(v)@ + le16(x as int),
{
    v.push((x % 256) as u8);
    v.push((x / 256) as u8);
    proof {
        assert(x as int / 256 < 256);
        assert(v@ =~= old(v)@ + le16(x as int));
    }
}

/// Appends the four little-endian bytes of `x`.
fn push_le32(v: &mut Vec<u8>, x: u32)
    ensures
        final(v)@ == old(v)@ + le32(x as int),
{
    v.push((x % 256) as u8);
    v.push(((x / 256) % 256) as u8);
    v.push(((x / 65536) % 256) as u8);
    v.push((x / 16777216) as u8);
    proof {
        assert(x as int / 16777216 < 256);
        assert((x as int / 16777216) % 256 == x as int / 16777216);
        assert(v@ =~= old(v)@ + le32(x as int));
    }
}

/// Encodes 16-bit PCM samples as a WAV byte buffer: the canonical
/// 44-byte header, then each sample in little-endian order.
pub fn pcm_i16_to_wav_bytes(samples: &[i16], channels: u16, sample_rate: u32) -> (wav: Vec<u8>)
    requires
        2 * channels as int <= u16::MAX,
        2 * channels as int * sample_rate as int <= u32::MAX,
        36 + 2 * samples@.len() <= u32::MAX,
    ensures
        wav@ == wav_bytes_spec(samples@, channels, sample_rate),
{
    let data_size: u32 = (samples.len() as u32) * 2;
    proof {
        assert(sample_rate as int * channels as int <= u32::MAX && sample_rate as int
            * channels as int * 2 <= u32::MAX) by (nonlinear_arith)
            requires
                2 * channels as int * sample_rate as int <= u32::MAX,
                channels as int >= 0,
                sample_rate as int >= 0,
        ;
    }
    let byte_rate: u32 = sample_rate * (channels as u32) * 2;
    let block_align: u16 = channels * 2;
    let chunk_size: u32 = 36 + data_size;

    let mut wav: Vec<u8> = Vec::new();
    wav.push(82);
    wav.push(73);
    wav.push(70);
    wav.push(70);
    assert(wav@ =~= tag_riff());
    push_le32(&mut wav, chunk_size);
    wav.push(87);
    wav.push(65);
    wav.push(86);
    wav.push(69);
    wav.push(102);
    wav.push(109);
    wav.push(116);
    wav.push(32);
    assert(wav@ =~= tag_riff() + le32(36 + 2 * samples@.len() as int) + tag_wave() + tag_fmt());
    push_le32(&mut wav, 16);
    push_le16(&mut wav, 1);
    push_le16(&mut wav, channels);
    push_le32(&mut wav, sample_rate);
    push_le32(&mut wav, byte_rate);
    push_le16(&mut wav, block_align);
    push_le16(&mut wav, 16);
    wav.push(100);
    wav.push(97);
    wav.push(116);
    wav.push(97);
    push_le32(&mut wav, data_size);
    assert(wav@ =~= wav_header_spec(channels, sample_rate, 2 * samples@.len() as int));

    let ghost header = wav@;
    let mut i: usize = 0;
    assert(samples@.subrange(0, 0) =~= Seq::<i16>::empty());
    assert(wav@ =~= header + sample_bytes_spec(samples@.subrange(0, 0)));
    while i < samples.len()
        invariant
            i <= samples@.len(),
            wav@ == header + sample_bytes_spec(samples@.subrange(0, i as int)),
        decreases samples@.len() - i,
    {
        let s = samples[i];
        let wide: i32 = s as i32;
        let unsigned: i32 = if wide >= 0 {
            wide
        } else {
            wide + 65536
        };
        assert(unsigned == sample_u16(samples@[i as int]));
        wav.push((unsigned % 256) as u8);
        wav.push(((unsigned / 256) % 256) as u8);
        proof {
            let prefix = samples@.subrange(0, i as int);
            let longer = samples@.subrange(0, i + 1);
            assert(longer.drop_last() =~= prefix);
            assert(longer.last() == samples@[i as int]);
            assert(0 <= unsigned < 65536);
            assert((unsigned as int / 256) % 256 == unsigned as int / 256);
            assert(wav@ =~= header + sample_bytes_spec(longer));
        }
        i = i + 1;
    }
    assert(samples@.subrange(0, samples@.len() as int) =~= samples@);
    wav
}

/// The format fields recovered from a WAV header.
#[derive(Debug, Clone, Copy, PartialEq, Eq, Structural)]
pub struct WavHeader {
    /// Number of interleaved channels.
    pub channels: u16,
    /// Samples per second.
    pub sample_rate: u32,
    /// Bits per sample; 16 for every buffer this engine produces.
    pub bits_per_sample: u16,
    /// Size of the payload that follows the header, in bytes.
    pub data_size: u32,
}

/// The 16-bit little-endian value at offset `i` of `b`.
pub open spec fn rd16(b: Seq<u8>, i: int) -> int {
    b[i] + 256 * b[i + 1]
}

/// The 32-bit little-endian value at offset `i` of `b`.
pub open spec fn rd32(b: Seq<u8>, i: int) -> int {
    b[i] + 256 * b[i + 1] + 65536 * b[i + 2] + 16777216 * b[i + 3]
}

/// Whether `b` opens with a well-formed PCM WAV header: the `RIFF`,
/// `WAVE`, `fmt ` and `data` tags in place, a 16-byte format chunk, and
/// the PCM format tag.
pub open spec fn wav_header_ok(b: Seq<u8>) -> bool {
    &&& b.len() >= 44
    &&& b.subrange(0, 4) == tag_riff()
    &&& b.subrange(8, 12) == tag_wave()
    &&& b.subrange(12, 16) == tag_fmt()
    &&& rd32(b, 16) == 16
    &&& rd16(b, 20) == 1
    &&& b.subrange(36, 40) == tag_data()
}

/// What decoding a WAV header yields: the format fields if the header is
/// well formed, nothing otherwise.
pub open spec fn decode_wav_header_spec(b: Seq<u8>) -> Option<WavHeader> {
    if wav_header_ok(b) {
        Some(
            WavHeader {
                channels: rd16(b, 22) as u16,
                sample_rate: rd32(b, 24) as u32,
                bits_per_sample: rd16(b, 34) as u16,
                data_size: rd32(b, 40) as u32,
            },
        )
    } else {
        None
    }
}

/// Reads the 16-bit little-endian value at offset `i`.
fn read16(b: &[u8], i: usize) -> (r: u16)
    requires
        i + 2 <= b@.len(),
    ensures
        r == rd16(b@, i as int),
{
    (b[i] as u16) + 256 * (b[i + 1] as u16)
}

/// Reads the 32-bit little-endian value at offset `i`.
fn read32(b: &[u8], i: usize) -> (r: u32)
    requires
        i + 4 <= b@.len(),
    ensures
        r == rd32(b@, i as int),
{
    (b[i] as u32) + 256 * (b[i + 1] as u32) + 65536 * (b[i + 2] as u32) + 16777216 * (b[i
        + 3] as u32)
}

/// Decodes the header of a WAV byte buffer, recovering the channel
/// count, sample rate, bit depth and payload size, or nothing if the
/// buffer does not open with a well-formed PCM WAV header.
pub fn decode_wav_header(b: &[u8]) -> (r: Option<WavHeader>)
    ensures
        r == decode_wav_header_spec(b@),
{
    if b.len() < 44 {
        return None;
    }
    if b[0] != 82 || b[1] != 73 || b[2] != 70 || b[3] != 70 {
        proof {
            if b@.subrange(0, 4) == tag_riff() {
                assert(b@[0] == 82 && b@[1] == 73 && b@[2] == 70 && b@[3] == 70) by {
                    assert(b@.subrange(0, 4)[0] == b@[0]);
                    assert(b@.subrange(0, 4)[1] == b@[1]);
                    assert(b@.subrange(0, 4)[2] == b@[2]);
                    assert(b@.subrange(0, 4)[3] == b@[3]);
                }
            }
        }
        return None;
    }
    if b[8] != 87 || b[9] != 65 || b[10] != 86 || b[11] != 69 {
        proof {
            if b@.subrange(8, 12) == tag_wave() {
                assert(b@[8] == 87 && b@[9] == 65 && b@[10] == 86 && b@[11] == 69) by {
                    assert(b@.subrange(8, 12)[0] == b@[8]);
                    assert(b@.subrange(8, 12)[1] == b@[9]);
                    assert(b@.subrange(8, 12)[2] == b@[10]);
                    assert(b@.subrange(8, 12)[3] == b@[11]);
                }
            }
        }
        return None;
    }
    if b[12] != 102 || b[13] != 109 || b[14] != 116 || b[15] != 32 {
        proof {
            if b@.subrange(12, 16) == tag_fmt() {
                assert(b@[12] == 102 && b@[13] == 109 && b@[14] == 116 && b@[15] == 32) by {
                    assert(b@.subrange(12, 16)[0] == b@[12]);
                    assert(b@.subrange(12, 16)[1] == b@[13]);
                    assert(b@.subrange(12, 16)[2] == b@[14]);
                    assert(b@.subrange(12, 16)[3] == b@[15]);
                }
            }
        }
        return None;
    }
    if read32(b, 16) != 16 {
        return None;
    }
    if read16(b, 20) != 1 {
        return None;
    }
    if b[36] != 100 || b[37] != 97 || b[38] != 116 || b[39] != 97 {
        proof {
            if b@.subrange(36, 40) == tag_data() {
                assert(b@[36] == 100 && b@[37] == 97 && b@[38] == 116 && b@[39] == 97) by {
                    assert(b@.subrange(36, 40)[0] == b@[36]);
                    assert(b@.subrange(36, 40)[1] == b@[37]);
                    assert(b@.subrange(36, 40)[2] == b@[38]);
                    assert(b@.subrange(36, 40)[3] == b@[39]);
                }
            }
        }
        return None;
    }
    proof {
        assert(b@.subrange(0, 4) =~= tag_riff());
        assert(b@.subrange(8, 12) =~= tag_wave());
        assert(b@.subrange(12, 16) =~= tag_fmt());
        assert(b@.subrange(36, 40) =~= tag_data());
    }
    Some(
        WavHeader {
            channels: read16(b, 22),
            sample_rate: read32(b, 24),
            bits_per_sample: read16(b, 34),
            data_size: read32(b, 40),
        },
    )
}

/// The sample payload is laid down two bytes per sample.
pub proof fn lemma_sample_bytes_len(samples: Seq<i16>)
    ensures
        sample_bytes_spec(samples).len() == 2 * samples.len(),
    decreases samples.len(),
{
    if samples.len() > 0 {
        lemma_sample_bytes_len(samples.drop_last());
    }
}

/// Encoding is a pure round trip: decoding the header of an encoded
/// buffer recovers the channel count, the sample rate, the 16-bit
/// depth, and a payload of exactly two bytes per sample, and the bytes
/// after the header are exactly the little-endian sample bytes.
///
/// The bounds are those the container itself forces: the byte rate,
/// the chunk size and the payload size each live in a 4-byte header
/// field, so rates or payloads past `u32::MAX` have no WAV image at
/// all (for instance a rate of 2^30 with two channels).
pub proof fn lemma_wav_round_trip(samples: Seq<i16>, channels: u16, sample_rate: u32)
    requires
        2 * channels as int <= u16::MAX,
        2 * channels as int * sample_rate as int <= u32::MAX,
        36 + 2 * samples.len() <= u32::MAX,
    ensures
        decode_wav_header_spec(wav_bytes_spec(samples, channels, sample_rate)) == Some(
            WavHeader {
                channels,
                sample_rate,
                bits_per_sample: 16,
                data_size: (2 * samples.len()) as u32,
            },
        ),
        wav_bytes_spec(samples, channels, sample_rate).subrange(
            44,
            wav_bytes_spec(samples, channels, sample_rate).len() as int,
        ) == sample_bytes_spec(samples),
{
    let ds = 2 * samples.len() as int;
    let header = wav_header_spec(channels, sample_rate, ds);
    let whole = wav_bytes_spec(samples, channels, sample_rate);
    assert(header.len() == 44);
    lemma_sample_bytes_len(samples);
    assert(whole.len() == 44 + 2 * samples.len());
    assert(forall|i: int| 0 <= i < 44 ==> whole[i] == header[i]);

    assert(whole.subrange(0, 4) =~= tag_riff());
    assert(whole.subrange(8, 12) =~= tag_wave());
    assert(whole.subrange(12, 16) =~= tag_fmt());
    assert(whole.subrange(36, 40) =~= tag_data());

    lemma_rd32_le32(16);
    lemma_rd16_le16(1);
    lemma_rd16_le16(channels as int);
    lemma_rd32_le32(sample_rate as int);
    lemma_rd16_le16(16);
    lemma_rd32_le32(ds);

    assert(rd32(whole, 16) == 16) by {
        assert(whole[16] == le32(16)[0] && whole[17] == le32(16)[1] && whole[18] == le32(16)[2]
            && whole[19] == le32(16)[3]);
    }
    assert(rd16(whole, 20) == 1) by {
        assert(whole[20] == le16(1)[0] && whole[21] == le16(1)[1]);
    }
    assert(rd16(whole, 22) == channels as int) by {
        assert(whole[22] == le16(channels as int)[0] && whole[23] == le16(channels as int)[1]);
    }
    assert(rd32(whole, 24) == sample_rate as int) by {
        assert(whole[24] == le32(sample_rate as int)[0] && whole[25] == le32(sample_rate as int)[1]
            && whole[26] == le32(sample_rate as int)[2] && whole[27] == le32(
            sample_rate as int,
        )[3]);
    }
    assert(rd16(whole, 34) == 16) by {
        assert(whole[34] == le16(16)[0] && whole[35] == le16(16)[1]);
    }
    assert(rd32(whole, 40) == ds) by {
        assert(whole[40] == le32(ds)[0] && whole[41] == le32(ds)[1] && whole[42] == le32(ds)[2]
            && whole[43] == le32(ds)[3]);
    }
    assert(whole.subrange(44, whole.len() as int) =~= sample_bytes_spec(samples));
}

/// Reading back two little-endian bytes yields the encoded value.
proof fn lemma_rd16_le16(x: int)
    requires
        0 <= x < 65536,
    ensures
        le16(x)[0] + 256 * le16(x)[1] == x,
{
    assert(x % 256 + 256 * ((x / 256) % 256) == x) by (nonlinear_arith)
        requires
            0 <= x < 65536,
    ;
}

/// Reading back four little-endian bytes yields the encoded value.
proof fn lemma_rd32_le32(x: int)
    requires
        0 <= x < 4294967296,
    ensures
        le32(x)[0] + 256 * le32(x)[1] + 65536 * le32(x)[2] + 16777216 * le32(x)[3] == x,
{
    assert(x % 256 + 256 * ((x / 256) % 256) + 65536 * ((x / 65536) % 256) + 16777216 * ((x
        / 16777216) % 256) == x) by (nonlinear_arith)
        requires
            0 <= x < 4294967296,
    ;
}

} // verus!
