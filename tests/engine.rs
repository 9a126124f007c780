use drongo::{decode_s16le, to_output, AudioEngine, EngineError, SampleStore, GAIN_UNIT, MAX_VOICES};

const HALF: u16 = 16384;

fn render(engine: &mut AudioEngine, samples: usize) -> Vec<i16> {
    let mut buf = vec![0i16; samples];
    assert!(engine.render_fits(samples));
    engine.update(&mut buf);
    buf
}

#[test]
fn frames_per_beat_at_120_bpm_is_22050() {
    let engine = AudioEngine::new(120);
    assert_eq!(engine.next_beat_frame(), 22050);
}

#[test]
fn first_beat_fires_when_frames_reach_22050() {
    // 43 calls of 512 frames make 22016 frames; the 44th reaches 22528
    let mut engine = AudioEngine::new(120);
    for call in 1..=43 {
        render(&mut engine, 1024);
        assert_eq!(engine.current_beat(), 0, "call {}", call);
    }
    render(&mut engine, 1024);
    assert_eq!(engine.current_beat(), 1);
    assert_eq!(engine.frames_rendered(), 44 * 512);
    assert_eq!(engine.next_beat_frame(), 2 * 22050);
}

#[test]
fn beat_gap_is_exact_over_seventeen_beats_with_wraparound() {
    let mut engine = AudioEngine::new(140);
    let gap: u64 = 44100 * 60 / 140;
    assert_eq!(gap, 18900);
    let mut last_threshold = engine.next_beat_frame();
    let mut beats_seen = 0;
    let mut expected_beat = 0u64;
    while beats_seen < 17 {
        let before = engine.current_beat();
        render(&mut engine, 2 * 700);
        if engine.current_beat() != before {
            beats_seen += 1;
            expected_beat = (expected_beat + 1) % 16;
            assert_eq!(engine.current_beat(), expected_beat);
            assert_eq!(engine.next_beat_frame() - last_threshold, gap);
            last_threshold = engine.next_beat_frame();
        }
    }
    assert_eq!(engine.current_beat(), 1);
    assert_eq!(engine.next_beat_frame(), 18 * gap);
}

#[test]
fn long_buffer_fires_a_single_beat() {
    let mut engine = AudioEngine::new(120);
    render(&mut engine, 2 * 22050 * 3);
    assert_eq!(engine.current_beat(), 1);
    assert_eq!(engine.next_beat_frame(), 2 * 22050);
}

#[test]
fn zero_mask_voice_is_never_retriggered() {
    let mut engine = AudioEngine::new(2_646_000);
    engine.load_sound("tick", vec![100, 200]);
    let id = engine.play_sound("tick", GAIN_UNIT as u16 - 1, 0).unwrap();
    render(&mut engine, 4);
    assert!(!engine.channel_playing(id));
    for _ in 0..40 {
        let out = render(&mut engine, 2);
        assert_eq!(out, vec![0, 0]);
        assert!(!engine.channel_playing(id));
    }
}

#[test]
fn matching_mask_retriggers_a_finished_voice() {
    // one frame per beat: every render call fires a beat
    let mut engine = AudioEngine::new(2_646_000);
    engine.load_sound("tick", vec![32767, 32767]);
    let id = engine.play_sound("tick", HALF, 0b100).unwrap();
    let out = render(&mut engine, 4);
    assert_eq!(engine.current_beat(), 1);
    assert_eq!(out, vec![16383, 16383, 0, 0]);
    assert!(!engine.channel_playing(id));
    let out = render(&mut engine, 2);
    assert_eq!(engine.current_beat(), 2);
    assert_eq!(out, vec![16383, 16383]);
    assert!(engine.channel_playing(id));
}

#[test]
fn voice_stops_and_rewinds_when_out_of_samples() {
    let mut engine = AudioEngine::new(120);
    engine.load_sound("s", vec![10, 20, 30]);
    let id = engine.play_sound("s", 32767, 0).unwrap();
    let out = render(&mut engine, 2);
    assert_eq!(out, vec![9, 19]);
    assert!(engine.channel_playing(id));
    let out = render(&mut engine, 2);
    assert_eq!(out, vec![29, 0]);
    assert!(!engine.channel_playing(id));
    let out = render(&mut engine, 2);
    assert_eq!(out, vec![0, 0]);
}

#[test]
fn voice_ending_exactly_at_buffer_end_stops_on_next_call() {
    let mut engine = AudioEngine::new(120);
    engine.load_sound("s", vec![10, 20]);
    let id = engine.play_sound("s", 32767, 0).unwrap();
    assert_eq!(render(&mut engine, 2), vec![9, 19]);
    assert!(engine.channel_playing(id));
    assert_eq!(render(&mut engine, 2), vec![0, 0]);
    assert!(!engine.channel_playing(id));
}

#[test]
fn three_full_scale_voices_clamp_instead_of_wrapping() {
    let mut engine = AudioEngine::new(120);
    engine.load_sound("loud", vec![32767, -32768, 32767, -32768]);
    for _ in 0..3 {
        engine.play_sound("loud", 32767, 0).unwrap();
    }
    let out = render(&mut engine, 4);
    assert_eq!(out, vec![32767, -32768, 32767, -32768]);
}

#[test]
fn kick_at_half_gain_then_silence() {
    let kick: Vec<i16> = vec![1000, -1000, 2001, -3, 3, 32767, -32768, 0];
    let mut engine = AudioEngine::new(120);
    assert!(engine.load_sound("kick", kick.clone()));
    let id = engine.play_sound("kick", HALF, 0b1).unwrap();
    let out = render(&mut engine, 2 * 22050);
    assert_eq!(&out[..8], &[500, -500, 1000, -1, 1, 16383, -16384, 0]);
    assert!(out[8..].iter().all(|&s| s == 0));
    assert!(!engine.channel_playing(id));
    let out = render(&mut engine, 2 * 512);
    assert!(out.iter().all(|&s| s == 0));
}

#[test]
fn stop_on_unknown_id_changes_nothing() {
    let mut engine = AudioEngine::new(120);
    engine.load_sound("s", vec![5; 8]);
    let id = engine.play_sound("s", 32767, 0).unwrap();
    engine.stop_channel(id + 100);
    assert!(engine.channel_playing(id));
    assert_eq!(render(&mut engine, 2), vec![4, 4]);
    engine.stop_channel(id);
    assert!(!engine.channel_playing(id));
    assert_eq!(render(&mut engine, 2), vec![0, 0]);
}

#[test]
fn stop_all_silences_every_voice() {
    let mut engine = AudioEngine::new(120);
    engine.load_sound("s", vec![5; 8]);
    let a = engine.play_sound("s", 32767, 0).unwrap();
    let b = engine.play_sound("s", 32767, 0).unwrap();
    engine.stop_all_channels();
    assert!(!engine.channel_playing(a));
    assert!(!engine.channel_playing(b));
    assert_eq!(render(&mut engine, 2), vec![0, 0]);
}

#[test]
fn set_volume_changes_only_that_voice() {
    let mut engine = AudioEngine::new(120);
    engine.load_sound("s", vec![1000; 8]);
    let a = engine.play_sound("s", 32767, 0).unwrap();
    let _b = engine.play_sound("s", 0, 0).unwrap();
    engine.set_channel_volume(a, HALF);
    engine.set_channel_volume(999, 32767);
    assert_eq!(render(&mut engine, 2), vec![500, 500]);
}

#[test]
fn ids_increase_and_are_never_reused() {
    let mut engine = AudioEngine::new(120);
    engine.load_sound("s", vec![1]);
    assert_eq!(engine.play_sound("s", 1, 0), Ok(0));
    assert_eq!(engine.play_sound("s", 1, 0), Ok(1));
    assert_eq!(engine.play_sound("s", 1, 0), Ok(2));
}

#[test]
fn unknown_sound_is_an_error() {
    let mut engine = AudioEngine::new(120);
    assert_eq!(engine.play_sound("missing", 1, 0), Err(EngineError::UnknownSound));
    assert_eq!(engine.voice_count(), 0);
}

#[test]
fn full_engine_reuses_spent_slot_or_refuses() {
    let mut engine = AudioEngine::new(120);
    engine.load_sound("s", vec![1; 4]);
    for i in 0..MAX_VOICES {
        assert_eq!(engine.play_sound("s", 1, 0b10), Ok(i as u64));
    }
    assert_eq!(engine.play_sound("s", 1, 0), Err(EngineError::TooManyVoices));
    // stopped but still on the grid: not spent
    engine.stop_all_channels();
    assert_eq!(engine.play_sound("s", 1, 0), Err(EngineError::TooManyVoices));

    let mut engine = AudioEngine::new(120);
    engine.load_sound("s", vec![1; 4]);
    for _ in 0..MAX_VOICES {
        engine.play_sound("s", 1, 0).unwrap();
    }
    engine.stop_channel(5);
    let id = engine.play_sound("s", 1, 0).unwrap();
    assert_eq!(id, MAX_VOICES as u64);
    assert_eq!(engine.voice_count(), MAX_VOICES);
    assert!(engine.channel_playing(id));
    assert!(!engine.channel_playing(5));
}

#[test]
fn load_twice_keeps_the_first_buffer() {
    let mut engine = AudioEngine::new(120);
    assert!(engine.load_sound("s", vec![3000, 3000]));
    assert!(!engine.load_sound("s", vec![-7, -7]));
    engine.play_sound("s", 32767, 0).unwrap();
    assert_eq!(render(&mut engine, 2), vec![2999, 2999]);
}

#[test]
fn unload_then_load_takes_new_buffer() {
    let mut store = SampleStore::new();
    assert!(store.load("s", vec![1, 2]));
    assert!(!store.load("s", vec![9]));
    assert_eq!(store.get("s"), Some(&vec![1, 2]));
    store.unload("s");
    assert!(!store.contains("s"));
    assert_eq!(store.get("s"), None);
    assert!(store.load("s", vec![9]));
    assert_eq!(store.get("s"), Some(&vec![9]));
    store.unload("other");
    assert!(store.contains("s"));
}

#[test]
fn engine_unload_keeps_started_voices() {
    let mut engine = AudioEngine::new(120);
    engine.load_sound("s", vec![1000; 4]);
    let id = engine.play_sound("s", 32767, 0).unwrap();
    engine.unload_sound("s");
    assert!(!engine.is_loaded("s"));
    assert!(engine.channel_playing(id));
    assert_eq!(render(&mut engine, 2), vec![999, 999]);
    assert_eq!(engine.play_sound("s", 1, 0), Err(EngineError::UnknownSound));
}

#[test]
fn decode_reads_little_endian_words() {
    let bytes: Vec<u8> = vec![0x01, 0x00, 0xff, 0xff, 0x00, 0x80, 0xff, 0x7f, 0x07];
    assert_eq!(decode_s16le(&bytes), vec![1, -1, -32768, 32767]);
    assert_eq!(decode_s16le(&[]), Vec::<i16>::new());
}

#[test]
fn output_conversion_truncates_and_clamps() {
    assert_eq!(to_output(32768 * 100), 100);
    assert_eq!(to_output(-49152), -1);
    assert_eq!(to_output(49152), 1);
    assert_eq!(to_output(32767 * 32768 * 3), 32767);
    assert_eq!(to_output(-32768 * 32768 * 3), -32768);
    assert_eq!(to_output(0), 0);
}
