use hi_voicer::wav_chunks::{chunk_layout, plan_wav_chunk_boundaries};

#[test]
fn splits_long_wav_into_fixed_chunks() {
    let samples = vec![0i16; 16000 * 3];

    let boundaries = plan_wav_chunk_boundaries(&samples, 16000, 1, 1);

    assert_eq!(boundaries.len() - 1, 3);
    for pair in boundaries.windows(2) {
        assert_eq!(pair[1] - pair[0], 16000);
    }
}

#[test]
fn layout_follows_the_wav_format() {
    let layout = chunk_layout(16000, 2, 300);
    assert_eq!(layout.samples_per_second, 32000);
    assert_eq!(layout.target_samples, 32000 * 300);
    assert_eq!(layout.search_radius, 32000 * 8);
    assert_eq!(layout.analysis_window, 8000);
    assert_eq!(layout.step, 1024);
    assert_eq!(layout.channels, 2);
    let odd = chunk_layout(0, 0, 0);
    assert_eq!(odd.samples_per_second, 1);
    assert_eq!(odd.target_samples, 1);
    assert_eq!(odd.channels, 1);
}

#[test]
fn empty_and_short_recordings() {
    assert!(plan_wav_chunk_boundaries(&[], 16000, 1, 1).is_empty());
    assert_eq!(plan_wav_chunk_boundaries(&[5i16; 100], 16000, 1, 1), vec![0, 100]);
}

#[test]
fn cuts_fall_in_the_quietest_stretch_near_the_target() {
    // 100 samples per second, chunks of 30 s; loud everywhere but a quiet
    // stretch 2 s after the target.
    let rate = 100usize;
    let mut samples = vec![1000i16; rate * 70];
    for s in samples.iter_mut().skip(rate * 32).take(rate) {
        *s = 0;
    }
    let boundaries = plan_wav_chunk_boundaries(&samples, rate as u32, 1, 30);
    assert_eq!(boundaries[0], 0);
    assert_eq!(*boundaries.last().unwrap(), samples.len());
    let cut = boundaries[1];
    assert!(cut >= rate * 32 && cut < rate * 33, "cut at {cut}");
    assert!(boundaries.windows(2).all(|p| p[0] < p[1]));
}

#[test]
fn stereo_cuts_fall_on_whole_frames() {
    let mut samples = vec![500i16; 2 * 100 * 50];
    for s in samples.iter_mut().skip(2 * 100 * 27 + 1).take(61) {
        *s = 0;
    }
    let boundaries = plan_wav_chunk_boundaries(&samples, 100, 2, 25);
    assert!(boundaries.len() >= 3);
    for b in &boundaries {
        assert_eq!(b % 2, 0);
    }
}

#[test]
fn boundaries_cover_the_recording_in_increasing_order() {
    let samples: Vec<i16> = (0..(8000 * 95)).map(|i| ((i * 37) % 2001 - 1000) as i16).collect();
    let b = plan_wav_chunk_boundaries(&samples, 8000, 1, 30);
    assert_eq!(b[0], 0);
    assert_eq!(*b.last().unwrap(), samples.len());
    assert!(b.len() >= 3);
    assert!(b.windows(2).all(|p| p[0] < p[1]));
}

#[test]
fn short_chunks_are_cut_every_chunk_length() {
    let samples = vec![5i16; 2 * 8000 * 7 + 3];
    let boundaries = plan_wav_chunk_boundaries(&samples, 8000, 2, 3);
    let t = 8000 * 2 * 3;
    assert_eq!(boundaries, vec![0, t, 2 * t, samples.len()]);
}

#[test]
fn chunk_pieces_rejoin_the_recording() {
    let samples: Vec<i16> = (0..(2 * 4000 * 50 + 7)).map(|i| ((i * 37) % 2001 - 1000) as i16).collect();
    let b = plan_wav_chunk_boundaries(&samples, 4000, 2, 15);
    let mut joined = Vec::new();
    for pair in b.windows(2) {
        assert!(pair[0] < pair[1]);
        joined.extend_from_slice(&samples[pair[0]..pair[1]]);
    }
    assert_eq!(joined, samples);
}
