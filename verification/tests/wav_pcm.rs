use auxcast::pcm::encode_stereo_frames;
use auxcast::wav::{create_wav_header, wav_file_header};

fn le32(b: &[u8]) -> u32 {
    u32::from_le_bytes([b[0], b[1], b[2], b[3]])
}

fn le16(b: &[u8]) -> u16 {
    u16::from_le_bytes([b[0], b[1]])
}

#[test]
fn header_for_cd_quality_stereo() {
    let h = create_wav_header(44100, 2, 16, 1000);
    assert_eq!(h.len(), 44);
    assert_eq!(&h[0..4], b"RIFF");
    assert_eq!(le32(&h[4..8]), 1036);
    assert_eq!(&h[8..12], b"WAVE");
    assert_eq!(&h[12..16], b"fmt ");
    assert_eq!(le32(&h[16..20]), 16);
    assert_eq!(le16(&h[20..22]), 1);
    assert_eq!(le16(&h[22..24]), 2);
    assert_eq!(le32(&h[24..28]), 44100);
    assert_eq!(le32(&h[28..32]), 176400);
    assert_eq!(le16(&h[32..34]), 4);
    assert_eq!(le16(&h[34..36]), 16);
    assert_eq!(&h[36..40], b"data");
    assert_eq!(le32(&h[40..44]), 1000);
}

#[test]
fn header_exact_bytes() {
    let h = create_wav_header(48000, 1, 8, 0);
    let expected: Vec<u8> = vec![
        0x52, 0x49, 0x46, 0x46, 36, 0, 0, 0, 0x57, 0x41, 0x56, 0x45,
        0x66, 0x6d, 0x74, 0x20, 16, 0, 0, 0, 1, 0, 1, 0,
        0x80, 0xbb, 0, 0, 0x80, 0xbb, 0, 0, 1, 0, 8, 0,
        0x64, 0x61, 0x74, 0x61, 0, 0, 0, 0,
    ];
    assert_eq!(h, expected);
}

#[test]
fn header_byte_rate_rounds_down() {
    // 3 channels of 12 bits: 36 bits a frame, 4 whole bytes
    let h = create_wav_header(8000, 3, 12, 7);
    assert_eq!(le32(&h[28..32]), 36000);
    assert_eq!(le16(&h[32..34]), 4);
}

#[test]
fn header_largest_data_size() {
    let h = create_wav_header(44100, 2, 16, u32::MAX - 36);
    assert_eq!(le32(&h[4..8]), u32::MAX);
    assert_eq!(le32(&h[40..44]), u32::MAX - 36);
}

#[test]
fn file_header_is_stereo_16_bit() {
    let h = wav_file_header(44100, 8);
    assert_eq!(h, create_wav_header(44100, 2, 16, 8));
}

#[test]
fn streaming_header_has_no_data() {
    let h = wav_file_header(22050, 0);
    assert_eq!(le32(&h[4..8]), 36);
    assert_eq!(le32(&h[40..44]), 0);
    assert_eq!(le32(&h[28..32]), 88200);
}

#[test]
fn stereo_frames_are_interleaved_little_endian() {
    let bytes = encode_stereo_frames(&[1, -1, 0x1234, i16::MIN], 2);
    assert_eq!(bytes, vec![1, 0, 0xff, 0xff, 0x34, 0x12, 0x00, 0x80]);
}

#[test]
fn extra_channels_are_dropped() {
    let bytes = encode_stereo_frames(&[10, 20, 30, 40, 50, 60, 70], 3);
    // frames [10 20 30] [40 50 60] [70]: the last one has a single sample
    assert_eq!(bytes, vec![10, 0, 20, 0, 40, 0, 50, 0]);
}

#[test]
fn partial_last_frame_with_two_samples_counts() {
    let bytes = encode_stereo_frames(&[1, 2, 3, 4, 5, 6, 7, 8, 9], 4);
    // frames [1 2 3 4] [5 6 7 8] [9]
    assert_eq!(bytes.len(), 8);
    let bytes = encode_stereo_frames(&[1, 2, 3, 4, 5, 6], 4);
    // frames [1 2 3 4] [5 6]
    assert_eq!(bytes, vec![1, 0, 2, 0, 5, 0, 6, 0]);
}

#[test]
fn mono_input_gives_nothing() {
    assert!(encode_stereo_frames(&[1, 2, 3, 4], 1).is_empty());
}

#[test]
fn empty_input_gives_nothing() {
    assert!(encode_stereo_frames(&[], 2).is_empty());
}

#[test]
fn stereo_length_law_on_example() {
    // 10 samples of 4 channels: two whole frames and a partial one of 2
    let samples: Vec<i16> = (0..10).collect();
    assert_eq!(encode_stereo_frames(&samples, 4).len(), 4 * 2 + 4);
}
