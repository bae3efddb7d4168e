use aiff_tempo::{decode_extended, read_aiff, AiffData, AiffError, ChunkId};

fn be32(v: u32) -> Vec<u8> {
    v.to_be_bytes().to_vec()
}

fn be16(v: u16) -> Vec<u8> {
    v.to_be_bytes().to_vec()
}

const RATE_44100: [u8; 10] = [0x40, 0x0E, 0xAC, 0x44, 0, 0, 0, 0, 0, 0];
const RATE_48000: [u8; 10] = [0x40, 0x0E, 0xBB, 0x80, 0, 0, 0, 0, 0, 0];

/// Builds a container: optional NAME, COMM with the given fields, SSND with
/// the given offset, then `pcm`.
fn container(name: Option<&[u8]>, channels: u16, frames: u32, bits: u16, rate: [u8; 10], offset: u16, pcm: &[u8]) -> Vec<u8> {
    let mut body = b"AIFF".to_vec();
    if let Some(n) = name {
        body.extend_from_slice(b"NAME");
        body.extend(be32(n.len() as u32));
        body.extend_from_slice(n);
    }
    body.extend_from_slice(b"COMM");
    body.extend(be32(18));
    body.extend(be16(channels));
    body.extend(be32(frames));
    body.extend(be16(bits));
    body.extend_from_slice(&rate);
    body.extend_from_slice(b"SSND");
    body.extend(be32(4 + offset as u32 + pcm.len() as u32));
    body.extend(be16(offset));
    body.extend(be16(0));
    body.extend(vec![0u8; offset as usize]);
    body.extend_from_slice(pcm);
    let mut out = b"FORM".to_vec();
    out.extend(be32(body.len() as u32));
    out.extend(body);
    out
}

fn samples16(v: &[i16]) -> Vec<u8> {
    v.iter().flat_map(|s| s.to_be_bytes()).collect()
}

#[test]
fn extended_float_decodes_44100() {
    let e = decode_extended(&RATE_44100);
    assert!(!e.negative);
    assert_eq!(e.exponent, 0x400E);
    assert_eq!(e.mantissa, 0xAC44_0000_0000_0000);
    assert_eq!(e.to_u32_saturating(), 44100);
    let exact = e.mantissa as f64 * 2f64.powi(e.exponent as i32 - 16383 - 63);
    assert!((exact - 44100.0).abs() / 44100.0 < 1e-6);
}

#[test]
fn extended_float_decodes_48000() {
    let e = decode_extended(&RATE_48000);
    assert_eq!(e.to_u32_saturating(), 48000);
    let exact = e.mantissa as f64 * 2f64.powi(e.exponent as i32 - 16383 - 63);
    assert!((exact - 48000.0).abs() / 48000.0 < 1e-6);
}

#[test]
fn extended_float_edge_values() {
    assert_eq!(decode_extended(&[0u8; 10]).to_u32_saturating(), 0);
    // -44100 truncates to 0
    let mut neg = RATE_44100;
    neg[0] |= 0x80;
    let e = decode_extended(&neg);
    assert!(e.negative);
    assert_eq!(e.to_u32_saturating(), 0);
    // 2^40 saturates
    let big = [0x40, 0x27, 0x80, 0, 0, 0, 0, 0, 0, 0];
    assert_eq!(decode_extended(&big).to_u32_saturating(), u32::MAX);
    // 0.5 truncates to 0, 1.5 to 1
    assert_eq!(decode_extended(&[0x3F, 0xFE, 0x80, 0, 0, 0, 0, 0, 0, 0]).to_u32_saturating(), 0);
    assert_eq!(decode_extended(&[0x3F, 0xFF, 0xC0, 0, 0, 0, 0, 0, 0, 0]).to_u32_saturating(), 1);
}

#[test]
fn mono_channels_are_copies() {
    let pcm = samples16(&[0, 16384, -16384, 32767, -32768]);
    let bytes = container(None, 1, 5, 16, RATE_44100, 0, &pcm);
    let a = read_aiff(&bytes).unwrap();
    assert_eq!(a.num_channels, 1);
    assert_eq!(a.left_channel_audio, vec![0, 16384, -16384, 32767, -32768]);
    assert_eq!(a.right_channel_audio, a.left_channel_audio);
    assert_eq!(a.interleaved_audio, a.left_channel_audio);
}

#[test]
fn stereo_interleaving_round_trips() {
    let pcm = samples16(&[1, -1, 2, -2, 3, -3, 7]);
    let bytes = container(None, 2, 3, 16, RATE_44100, 0, &pcm);
    let a = read_aiff(&bytes).unwrap();
    assert_eq!(a.left_channel_audio, vec![1, 2, 3]);
    assert_eq!(a.right_channel_audio, vec![-1, -2, -3]);
    assert_eq!(a.interleaved_audio, vec![1, -1, 2, -2, 3, -3]);
    assert_eq!(a.interleaved_audio.len(), 2 * a.left_channel_audio.len());
    let evens: Vec<i16> = a.interleaved_audio.iter().step_by(2).copied().collect();
    let odds: Vec<i16> = a.interleaved_audio.iter().skip(1).step_by(2).copied().collect();
    assert_eq!(evens, a.left_channel_audio);
    assert_eq!(odds, a.right_channel_audio);
}

#[test]
fn header_fields_are_decoded() {
    let pcm = samples16(&[5, 6]);
    let bytes = container(Some(b"Song"), 1, 88200, 16, RATE_44100, 3, &pcm);
    let a = read_aiff(&bytes).unwrap();
    assert_eq!(a.file_size_bytes as usize, bytes.len());
    assert_eq!(a.num_sample_frames, 88200);
    assert_eq!(a.bit_depth, 16);
    assert_eq!(a.sample_rate_hz, 44100);
    assert_eq!(a.track_name, "Song");
    assert_eq!(a.track_length_s, 2);
    assert_eq!(a.sound_offset_bytes, 3);
    assert_eq!(a.sound_block_size_bytes, 0);
    assert_eq!(a.left_channel_audio, vec![5, 6]);
}

#[test]
fn missing_name_gives_empty_track_name() {
    let bytes = container(None, 1, 1, 16, RATE_48000, 0, &samples16(&[1]));
    let a = read_aiff(&bytes).unwrap();
    assert_eq!(a.track_name, "");
    assert_eq!(a.sample_rate_hz, 48000);
}

#[test]
fn invalid_utf8_name_is_replaced() {
    let bytes = container(Some(&[0x41, 0xFF, 0x42]), 1, 1, 16, RATE_44100, 0, &samples16(&[1]));
    let a = read_aiff(&bytes).unwrap();
    assert_eq!(a.track_name, "A\u{FFFD}B");
}

#[test]
fn other_bit_depths_keep_upper_sixteen_bits() {
    // 24-bit: 0x123456 -> 0x1234; 0xFF0000 (negative) -> 0xFF00 as i16
    let bytes = container(None, 1, 2, 24, RATE_44100, 0, &[0x12, 0x34, 0x56, 0xFF, 0x00, 0x00]);
    let a = read_aiff(&bytes).unwrap();
    assert_eq!(a.left_channel_audio, vec![0x1234, -256]);
    // 8-bit: scaled by 256
    let bytes = container(None, 1, 3, 8, RATE_44100, 0, &[0x7F, 0x80, 0x01]);
    let a = read_aiff(&bytes).unwrap();
    assert_eq!(a.left_channel_audio, vec![32512, -32768, 256]);
}

#[test]
fn trailing_partial_frame_is_dropped() {
    let bytes = container(None, 1, 2, 16, RATE_44100, 0, &[0, 1, 0, 2, 9]);
    let a = read_aiff(&bytes).unwrap();
    assert_eq!(a.left_channel_audio, vec![1, 2]);
}

#[test]
fn offset_past_end_gives_no_samples() {
    let mut bytes = container(None, 1, 0, 16, RATE_44100, 0, &[]);
    let n = bytes.len();
    bytes[n - 4] = 0x01;
    let a = read_aiff(&bytes).unwrap();
    assert!(a.left_channel_audio.is_empty());
}

#[test]
fn malformed_container_is_rejected() {
    let mut bytes = container(None, 1, 1, 16, RATE_44100, 0, &samples16(&[1]));
    bytes[0..4].copy_from_slice(b"XXXX");
    assert_eq!(read_aiff(&bytes).unwrap_err(), AiffError::MalformedContainer);
}

#[test]
fn header_errors() {
    let good = container(None, 1, 1, 16, RATE_44100, 0, &samples16(&[1]));
    let mut b = good.clone();
    b[8..12].copy_from_slice(b"AIFC");
    assert_eq!(read_aiff(&b).unwrap_err(), AiffError::UnsupportedFormat);
    let mut b = good.clone();
    b[12..16].copy_from_slice(b"COMX");
    assert_eq!(read_aiff(&b).unwrap_err(), AiffError::MissingChunk(ChunkId::Comm));
    let mut b = good.clone();
    b[19] = 20;
    assert_eq!(read_aiff(&b).unwrap_err(), AiffError::UnexpectedChunkSize);
    let mut b = good.clone();
    b[38..42].copy_from_slice(b"DATA");
    assert_eq!(read_aiff(&b).unwrap_err(), AiffError::MissingChunk(ChunkId::Ssnd));
    assert_eq!(read_aiff(&good[..30]).unwrap_err(), AiffError::UnexpectedEnd);
    assert_eq!(read_aiff(&good[..2]).unwrap_err(), AiffError::UnexpectedEnd);
    let mut b = good.clone();
    b[4..8].copy_from_slice(&[0xFF, 0xFF, 0xFF, 0xFF]);
    assert_eq!(read_aiff(&b).unwrap_err(), AiffError::MalformedContainer);
    let zero_rate = container(None, 1, 1, 16, [0u8; 10], 0, &samples16(&[1]));
    assert_eq!(read_aiff(&zero_rate).unwrap_err(), AiffError::InvalidSampleRate);
    let three = container(None, 3, 1, 16, RATE_44100, 0, &samples16(&[1, 2, 3]));
    assert_eq!(read_aiff(&three).unwrap_err(), AiffError::UnsupportedChannelLayout);
    let odd_bits = container(None, 1, 1, 12, RATE_44100, 0, &samples16(&[1]));
    assert_eq!(read_aiff(&odd_bits).unwrap_err(), AiffError::UnsupportedBitDepth);
    let name_too_long = {
        let mut b = container(Some(b"ab"), 1, 1, 16, RATE_44100, 0, &[]);
        b[19] = 200;
        b
    };
    assert_eq!(read_aiff(&name_too_long).unwrap_err(), AiffError::UnexpectedEnd);
}

#[test]
fn decoded_container_is_well_formed() {
    let bytes = container(None, 2, 1, 16, RATE_44100, 0, &samples16(&[1, 2]));
    let a: AiffData = read_aiff(&bytes).unwrap();
    assert!(a.is_well_formed());
}
