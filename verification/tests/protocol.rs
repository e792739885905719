use sonora::protocol::{decode_audio_frame, encode_audio_frame, parse_frame_len, write_frame, CHANNELS, MAX_FRAME_LEN, SAMPLE_RATE};

#[test]
fn audio_frames_round_trip() {
    let samples = [-32_768, -42, 0, 42, 32_767];
    let encoded = encode_audio_frame(12, &samples);
    assert_eq!(decode_audio_frame(&encoded), Some((12, samples.to_vec())));
}

#[test]
fn malformed_audio_frames_are_rejected() {
    assert_eq!(decode_audio_frame(b"bad"), None);
    let mut encoded = encode_audio_frame(1, &[1, 2]);
    encoded.pop();
    assert_eq!(decode_audio_frame(&encoded), None);
}

#[test]
fn audio_frame_layout_is_magic_sequence_count_samples() {
    let encoded = encode_audio_frame(0x0102_0304_0506_0708, &[1, -2]);
    assert_eq!(
        encoded,
        vec![
            b'S', b'N', b'R', b'1', 8, 7, 6, 5, 4, 3, 2, 1, 2, 0, 0, 0, 1, 0, 0xfe, 0xff
        ]
    );
}

#[test]
fn empty_audio_frame_round_trips() {
    let encoded = encode_audio_frame(7, &[]);
    assert_eq!(encoded.len(), 16);
    assert_eq!(decode_audio_frame(&encoded), Some((7, vec![])));
}

#[test]
fn audio_frame_with_wrong_magic_is_rejected() {
    let mut encoded = encode_audio_frame(3, &[5]);
    encoded[3] = b'2';
    assert_eq!(decode_audio_frame(&encoded), None);
}

#[test]
fn audio_frame_with_extra_bytes_is_rejected() {
    let mut encoded = encode_audio_frame(3, &[5]);
    encoded.push(0);
    assert_eq!(decode_audio_frame(&encoded), None);
}

#[test]
fn length_frames_carry_little_endian_length() {
    assert_eq!(write_frame(b"abc"), vec![3, 0, 0, 0, b'a', b'b', b'c']);
    assert_eq!(write_frame(b""), vec![0, 0, 0, 0]);
}

#[test]
fn length_frame_header_reads_back() {
    let framed = write_frame(b"hello");
    assert_eq!(parse_frame_len(&framed[..4]), Some(5));
}

#[test]
fn empty_and_oversized_frames_are_refused() {
    assert_eq!(parse_frame_len(&[0, 0, 0, 0]), None);
    let limit = (MAX_FRAME_LEN as u32).to_le_bytes();
    assert_eq!(parse_frame_len(&limit), Some(MAX_FRAME_LEN));
    let over = (MAX_FRAME_LEN as u32 + 1).to_le_bytes();
    assert_eq!(parse_frame_len(&over), None);
}

#[test]
fn stream_format_is_48k_stereo() {
    assert_eq!(SAMPLE_RATE, 48_000);
    assert_eq!(CHANNELS, 2);
}

#[test]
fn a_decoded_frame_reencodes_to_the_same_bytes() {
    let mut buf = vec![b'S', b'N', b'R', b'1', 9, 0, 0, 0, 0, 0, 0, 0, 2, 0, 0, 0];
    buf.extend_from_slice(&[0x34, 0x12, 0xff, 0xff]);
    let (seq, pcm) = decode_audio_frame(&buf).unwrap();
    assert_eq!(encode_audio_frame(seq, &pcm), buf);
}
