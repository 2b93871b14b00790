use anytalk_daemon::audio::{
    i16_to_le_bytes, last_message, mix_to_mono, push_samples, u16_to_i16, AudioMsg, ResampleStart,
    StreamingResampler, CHUNK_SAMPLES, OUTPUT_RATE,
};

fn chunk_bytes(message: &AudioMsg) -> Vec<u8> {
    match message {
        AudioMsg::Chunk(bytes) => bytes.clone(),
        AudioMsg::End(_) => panic!("not a chunk"),
    }
}

#[test]
fn chunks_last_200_ms() {
    assert_eq!(OUTPUT_RATE, 16000);
    assert_eq!(CHUNK_SAMPLES, 3200);
}

#[test]
fn samples_become_little_endian_bytes() {
    let samples: Vec<i16> = vec![0, 1, -1, 258, i16::MIN, i16::MAX];
    let mut expected: Vec<u8> = Vec::new();
    for s in &samples {
        expected.extend_from_slice(&s.to_le_bytes());
    }
    assert_eq!(i16_to_le_bytes(&samples), expected);
    assert_eq!(i16_to_le_bytes(&[-2]), vec![0xFE, 0xFF]);
    assert_eq!(i16_to_le_bytes(&[]), Vec::<u8>::new());
}

#[test]
fn every_sample_is_read_back_from_its_bytes() {
    for s in i16::MIN..=i16::MAX {
        let bytes = i16_to_le_bytes(&[s]);
        assert_eq!(i16::from_le_bytes([bytes[0], bytes[1]]), s);
    }
}

#[test]
fn unsigned_samples_are_centred() {
    assert_eq!(
        u16_to_i16(&[0, 32767, 32768, 65535]),
        vec![-32768, -1, 0, 32767]
    );
}

#[test]
fn mono_input_is_passed_through() {
    assert_eq!(mix_to_mono(&[3, -4], 1), Some(vec![3, -4]));
    assert_eq!(mix_to_mono(&[3, -4], 0), Some(vec![3, -4]));
}

#[test]
fn empty_input_is_nothing() {
    assert_eq!(mix_to_mono(&[], 2), None);
    assert_eq!(mix_to_mono(&[], 1), None);
}

#[test]
fn frames_become_their_mean() {
    assert_eq!(mix_to_mono(&[1, 2, 10, 20], 2), Some(vec![1, 15]));
    // The quotient is rounded toward zero.
    assert_eq!(mix_to_mono(&[-1, -2, -1, 0], 2), Some(vec![-1, 0]));
    // The last frame may be short.
    assert_eq!(mix_to_mono(&[3, 3, 3, 7, 8], 3), Some(vec![3, 7]));
    assert_eq!(
        mix_to_mono(&[i16::MIN, i16::MIN, i16::MAX, i16::MAX], 2),
        Some(vec![i16::MIN, i16::MAX])
    );
}

#[test]
fn many_channels_do_not_overflow() {
    let input = vec![i16::MIN; 65536];
    assert_eq!(mix_to_mono(&input, 65536), Some(vec![i16::MIN]));
    assert_eq!(mix_to_mono(&[5, 6], usize::MAX), Some(vec![5]));
}

#[test]
fn whole_chunks_are_taken_off_the_buffer() {
    let mut buffer: Vec<i16> = vec![1];
    let messages = push_samples(&mut buffer, &[2, 3, 4, 5, 6, 7], 3);
    assert_eq!(messages.len(), 2);
    assert_eq!(chunk_bytes(&messages[0]), vec![1, 0, 2, 0, 3, 0]);
    assert_eq!(chunk_bytes(&messages[1]), vec![4, 0, 5, 0, 6, 0]);
    assert_eq!(buffer, vec![7]);
    assert!(push_samples(&mut buffer, &[], 3).is_empty());
    assert_eq!(buffer, vec![7]);
}

#[test]
fn no_sample_is_lost_in_a_recording() {
    let mut buffer: Vec<i16> = Vec::new();
    let mut sent: Vec<u8> = Vec::new();
    let mut all: Vec<i16> = Vec::new();
    for n in 0..50i16 {
        let push: Vec<i16> = (0..(n * 7) % 40).map(|k| n * 100 + k).collect();
        all.extend_from_slice(&push);
        for message in push_samples(&mut buffer, &push, 16) {
            let bytes = chunk_bytes(&message);
            assert_eq!(bytes.len(), 32);
            sent.extend_from_slice(&bytes);
        }
        assert!(buffer.len() < 16);
    }
    match last_message(&buffer) {
        AudioMsg::End(bytes) => sent.extend_from_slice(&bytes),
        AudioMsg::Chunk(_) => panic!("not the end"),
    }
    assert_eq!(sent, i16_to_le_bytes(&all));
}

#[test]
fn equal_rates_pass_the_input_through() {
    let resampler = StreamingResampler::new(16000, 16000);
    match resampler.begin(&[1, 2, 3]) {
        ResampleStart::Done(out) => assert_eq!(out, vec![1, 2, 3]),
        ResampleStart::Joined(_) => panic!("nothing to interpolate"),
    }
}

#[test]
fn empty_input_gives_nothing_to_resample() {
    let resampler = StreamingResampler::new(48000, 16000);
    match resampler.begin(&[]) {
        ResampleStart::Done(out) => assert!(out.is_empty()),
        ResampleStart::Joined(_) => panic!("nothing to interpolate"),
    }
}

#[test]
fn neighbours_end_with_the_samples() {
    let joined: Vec<i16> = vec![10, 20, 30];
    assert_eq!(StreamingResampler::neighbours(&joined, 0), Some((10, 20)));
    assert_eq!(StreamingResampler::neighbours(&joined, 1), Some((20, 30)));
    assert_eq!(StreamingResampler::neighbours(&joined, 2), None);
    assert_eq!(StreamingResampler::neighbours(&joined, usize::MAX), None);
    assert_eq!(StreamingResampler::neighbours(&[], 0), None);
    assert_eq!(StreamingResampler::neighbours(&[1], 0), None);
}

#[test]
fn resampling_in_pieces_continues_where_it_stopped() {
    // Halving the rate takes every second sample, however the input is cut.
    let input: Vec<i16> = (0..40).map(|k| k * 10).collect();
    let mut resampler = StreamingResampler::new(32000, 16000);
    let mut pos = 0.0f64;
    let mut out: Vec<i16> = Vec::new();
    for piece in input.chunks(7) {
        let joined = match resampler.begin(piece) {
            ResampleStart::Joined(joined) => joined,
            ResampleStart::Done(_) => panic!("rates differ"),
        };
        loop {
            let index = pos.floor() as usize;
            match StreamingResampler::neighbours(&joined, index) {
                Some((v0, v1)) => {
                    let frac = pos - index as f64;
                    out.push((v0 as f64 * (1.0 - frac) + v1 as f64 * frac).round() as i16);
                }
                None => break,
            }
            pos += 2.0;
        }
        let index = pos.floor() as usize;
        let dropped = resampler.finish(&joined, index);
        assert_eq!(dropped, index.saturating_sub(1));
        assert_eq!(resampler.tail, joined[dropped..].to_vec());
        assert!(resampler.tail.len() <= 2);
        pos -= dropped as f64;
    }
    let expected: Vec<i16> = (0..20).map(|k| k * 20).collect();
    assert_eq!(out, expected);
}
