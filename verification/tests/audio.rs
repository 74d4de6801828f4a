use martin::hash::noise_bits;
use martin::stream::{StreamBuf, StreamDecoder};
use martin::wav::{encode_wav, SAMPLE_RATE};

/// How a float sample is quantized for the WAV (done by the caller of `encode_wav`).
fn quantize(s: f32) -> i16 {
    (s.clamp(-1.0, 1.0) * 32767.0) as i16
}

#[test]
fn encode_wav_writes_a_valid_riff_header() {
    // one stereo frame (L=full-scale, R=clamped-from-overrange)
    let samples: Vec<i16> = [1.0f32, 2.0].iter().map(|&s| quantize(s)).collect();
    let w = encode_wav(&samples);
    assert_eq!(w.len(), 44 + 4); // header + 2 samples × 2 bytes
    assert_eq!(&w[0..4], b"RIFF");
    assert_eq!(&w[8..12], b"WAVE");
    assert_eq!(&w[12..16], b"fmt ");
    assert_eq!(&w[36..40], b"data");
    assert_eq!(u16::from_le_bytes([w[22], w[23]]), 2); // stereo
    assert_eq!(u32::from_le_bytes([w[24], w[25], w[26], w[27]]), SAMPLE_RATE);
    assert_eq!(u32::from_le_bytes([w[40], w[41], w[42], w[43]]), 4); // data bytes
    // both samples clamp to +full-scale (1.0 and the over-range 2.0)
    assert_eq!(i16::from_le_bytes([w[44], w[45]]), 32767);
    assert_eq!(i16::from_le_bytes([w[46], w[47]]), 32767);
}

#[test]
fn encode_wav_header_fields_and_negative_samples() {
    let w = encode_wav(&[-1, 256, -32768]);
    assert_eq!(u32::from_le_bytes([w[4], w[5], w[6], w[7]]), 36 + 6);
    assert_eq!(u32::from_le_bytes([w[16], w[17], w[18], w[19]]), 16);
    assert_eq!(u16::from_le_bytes([w[20], w[21]]), 1); // PCM
    assert_eq!(u32::from_le_bytes([w[28], w[29], w[30], w[31]]), SAMPLE_RATE * 4);
    assert_eq!(u16::from_le_bytes([w[32], w[33]]), 4);
    assert_eq!(u16::from_le_bytes([w[34], w[35]]), 16);
    assert_eq!(&w[44..], &[0xff, 0xff, 0x00, 0x01, 0x00, 0x80]);
    assert_eq!(encode_wav(&[]).len(), 44);
}

#[test]
fn decoder_reads_then_pads_then_ends() {
    let mut buf = StreamBuf::new(4); // 4 stereo frames = 8 samples total
    buf.push(&[0.1f32, 0.2, 0.3, 0.4]); // 2 frames
    let mut d = StreamDecoder::new();
    assert_eq!(
        [d.next(&buf, 0.0), d.next(&buf, 0.0), d.next(&buf, 0.0), d.next(&buf, 0.0)],
        [Some(0.1), Some(0.2), Some(0.3), Some(0.4)]
    );
    assert_eq!(d.next(&buf, 0.0), Some(0.0)); // underrun (not yet total) → silence, not end
    buf.push(&[0.5, 0.6, 0.7, 0.8]); // rest arrives → total reached
    assert_eq!([d.next(&buf, 0.0), d.next(&buf, 0.0)], [Some(0.5), Some(0.6)]);
    assert_eq!([d.next(&buf, 0.0), d.next(&buf, 0.0)], [Some(0.7), Some(0.8)]);
    assert_eq!(d.next(&buf, 0.0), None); // finalized == total → done
}

#[test]
fn decoder_skips_empty_segments_and_counts_frames() {
    let mut buf: StreamBuf<i16> = StreamBuf::new(3);
    buf.push(&[]);
    buf.push(&[1, 2]);
    buf.push(&[]);
    buf.push(&[3, 4, 5, 6]);
    assert_eq!(buf.finalized_frames(), 3);
    assert_eq!(buf.total_frames(), 3);
    let mut d = StreamDecoder::new();
    let got: Vec<Option<i16>> = (0..7).map(|_| d.next(&buf, -1)).collect();
    assert_eq!(got, vec![Some(1), Some(2), Some(3), Some(4), Some(5), Some(6), None]);
}

#[test]
fn pseudo_noise_stays_in_unit_range() {
    for i in [0usize, 1, 7, 1000, 44_100, usize::MAX / 2] {
        let n = (noise_bits(i) as f32 / u32::MAX as f32) * 2.0 - 1.0;
        assert!((-1.0..=1.0).contains(&n), "i {i}: {n}");
        assert_eq!(noise_bits(i), noise_bits(i)); // deterministic
    }
}

#[test]
fn noise_bits_known_values() {
    assert_eq!(noise_bits(0), 3_273_773_027);
    assert_eq!(noise_bits(1), 2_702_471_342);
    assert_eq!(noise_bits(7), 369_725_340);
    assert_eq!(noise_bits(1000), 3_243_027_561);
    // only the low 32 bits of the index count
    assert_eq!(noise_bits(1usize << 32), noise_bits(0));
}

#[test]
fn playback_waits_for_the_lead_buffer() {
    let mut buf: StreamBuf<i16> = StreamBuf::new(10);
    assert!(!buf.lead_ready(4));
    buf.push(&[0; 6]); // 3 frames
    assert!(!buf.lead_ready(4));
    buf.push(&[0; 2]); // 4 frames
    assert!(buf.lead_ready(4));
    // a lead longer than the track waits only for the whole track
    assert!(!buf.lead_ready(100));
    buf.push(&[0; 12]); // 10 frames
    assert!(buf.lead_ready(100));
}
