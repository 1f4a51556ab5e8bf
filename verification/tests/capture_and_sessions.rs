use companionpilot::config::VoiceRuntimeConfig;
use companionpilot::errors::VoiceError;
use companionpilot::manager::VoiceManager;
use companionpilot::session::{ingest_tick, VoiceSession};
use companionpilot::turn::{assemble_turn, capture_turn, AudioChunk, TimedChunk};

fn timed(at_ms: u64, label: &str, samples: &[i16]) -> TimedChunk {
    TimedChunk {
        at_ms,
        chunk: AudioChunk {
            speaker_label: label.to_string(),
            pcm_samples: samples.to_vec(),
        },
    }
}

fn test_config(allowlist: &[(u64, u64)], idle_timeout_ms: u64) -> VoiceRuntimeConfig {
    VoiceRuntimeConfig {
        openai_api_key: "SECRET-REDACTED".to_string(),
        stt_model: "stt".to_string(),
        tts_model: "tts".to_string(),
        tts_voice: "voice".to_string(),
        allowlist: allowlist.to_vec(),
        idle_timeout_ms,
        default_chunk_gap_ms: 700,
        default_listen_window_ms: 12_000,
        default_max_turn_ms: 30_000,
    }
}

#[test]
fn capture_times_out_without_any_chunk() {
    let arrivals: Vec<TimedChunk> = Vec::new();
    let r = capture_turn(&arrivals, 5_000, 700, 30_000);
    assert_eq!(r.err(), Some(VoiceError::CaptureTimeout));
}

#[test]
fn capture_times_out_when_first_chunk_is_late() {
    let arrivals = vec![timed(5_000, "late", &[1, 2])];
    let r = capture_turn(&arrivals, 5_000, 700, 30_000);
    assert_eq!(r.err(), Some(VoiceError::CaptureTimeout));
}

#[test]
fn capture_keeps_chunks_within_the_gap() {
    // chunk gap 700 ms; three chunks at 0, 200 and 500 ms, then silence:
    // the turn includes all three chunks' samples and labels, sorted.
    let arrivals = vec![
        timed(0, "beta", &[1, 2]),
        timed(200, "alpha", &[3]),
        timed(500, "beta", &[4, 5]),
    ];
    let turn = capture_turn(&arrivals, 1_000, 700, 30_000).expect("turn should be captured");
    assert_eq!(turn.pcm_samples, vec![1, 2, 3, 4, 5]);
    assert_eq!(turn.speakers, vec!["alpha".to_string(), "beta".to_string()]);
}

#[test]
fn capture_stops_at_the_silence_gap() {
    let arrivals = vec![
        timed(0, "a", &[1]),
        timed(100, "a", &[2]),
        timed(900, "a", &[3]),
    ];
    let turn = capture_turn(&arrivals, 1_000, 700, 30_000).expect("turn should be captured");
    assert_eq!(turn.pcm_samples, vec![1, 2]);
}

#[test]
fn capture_stops_at_the_turn_cap() {
    // chunks keep arriving every 100 ms, but the 1000 ms cap ends the
    // turn: only chunks arriving strictly within the cap are kept.
    let arrivals: Vec<TimedChunk> = (0..20)
        .map(|i| timed(100 * i as u64, "a", &[i as i16]))
        .collect();
    let turn = capture_turn(&arrivals, 1_000, 700, 1_000).expect("turn should be captured");
    let expected: Vec<i16> = (0..10).collect();
    assert_eq!(turn.pcm_samples, expected);
}

#[test]
fn capture_rejects_a_turn_without_samples() {
    let arrivals = vec![timed(0, "mute", &[])];
    let r = capture_turn(&arrivals, 1_000, 700, 30_000);
    assert_eq!(r.err(), Some(VoiceError::EmptyTurn));
}

#[test]
fn assemble_rejects_empty_chunk_list() {
    let chunks: Vec<AudioChunk> = Vec::new();
    assert_eq!(assemble_turn(&chunks).err(), Some(VoiceError::EmptyTurn));
}

#[test]
fn session_queue_is_fifo() {
    let mut s = VoiceSession::new(2, 10);
    assert_eq!(s.channel_id, 2);
    s.push_chunk(
        AudioChunk { speaker_label: "x".to_string(), pcm_samples: vec![1] },
        20,
    );
    s.push_chunk(
        AudioChunk { speaker_label: "y".to_string(), pcm_samples: vec![2] },
        30,
    );
    assert_eq!(s.last_activity_ms, 30);
    assert_eq!(s.queue_len(), 2);
    let first = s.pop_chunk().expect("first chunk");
    assert_eq!(first.speaker_label, "x");
    let second = s.pop_chunk().expect("second chunk");
    assert_eq!(second.speaker_label, "y");
    assert!(s.pop_chunk().is_none());
}

#[test]
fn session_clear_drops_backlog() {
    let mut s = VoiceSession::new(2, 0);
    s.push_chunk(
        AudioChunk { speaker_label: "x".to_string(), pcm_samples: vec![1] },
        5,
    );
    s.clear_chunks();
    assert_eq!(s.queue_len(), 0);
    assert_eq!(s.last_activity_ms, 5);
}

#[test]
fn sink_adapter_labels_sources_and_skips_silent_ones() {
    let mut s = VoiceSession::new(2, 0);
    ingest_tick(&mut s, vec![(7, vec![1, 2]), (8, vec![]), (41, vec![3])], 99);
    assert_eq!(s.last_activity_ms, 99);
    let first = s.pop_chunk().expect("first source");
    assert_eq!(first.speaker_label, "ssrc:7");
    assert_eq!(first.pcm_samples, vec![1, 2]);
    let second = s.pop_chunk().expect("third source");
    assert_eq!(second.speaker_label, "ssrc:41");
    assert_eq!(second.pcm_samples, vec![3]);
    assert!(s.pop_chunk().is_none());
}

#[test]
fn sink_adapter_without_payload_leaves_clock_alone() {
    let mut s = VoiceSession::new(2, 42);
    ingest_tick(&mut s, vec![(7, vec![])], 99);
    assert_eq!(s.last_activity_ms, 42);
    assert_eq!(s.queue_len(), 0);
}

#[test]
fn reaper_disabled_by_zero_timeout() {
    let mut m = VoiceManager::new(test_config(&[(1, 2)], 0));
    m.configure();
    m.register_session(1, 2, 0);
    assert!(m.idle_rooms(u64::MAX).is_empty());
}

#[test]
fn reaper_evicts_only_stale_sessions() {
    let mut m = VoiceManager::new(test_config(&[(1, 2), (5, 6)], 30_000));
    m.configure();
    m.register_session(1, 2, 0);
    m.register_session(5, 6, 50_000);
    let idle = m.idle_rooms(60_000);
    assert_eq!(idle, vec![1]);
    m.remove_session(1);
    assert!(m.idle_rooms(60_000).is_empty());
    assert_eq!(m.session_channel(5), Some(6));
    assert_eq!(m.session_channel(1), None);
}

#[test]
fn join_replaces_previous_session_for_room() {
    let mut m = VoiceManager::new(test_config(&[(1, 2), (1, 3)], 0));
    m.configure();
    m.register_session(1, 2, 0);
    m.register_session(1, 3, 10);
    assert_eq!(m.session_channel(1), Some(3));
}

fn empty_args() -> serde_json::Value {
    serde_json::Value::Object(serde_json::Map::new())
}

#[test]
fn listen_rejects_requester_in_another_channel() {
    let mut m = VoiceManager::new(test_config(&[(1, 2)], 0));
    m.configure();
    m.register_session(1, 2, 0);
    // requester is in channel 3 of the same room
    m.update_user_voice_state(1, 9, Some(3));
    let r = m.prepare_listen("1", "9", &empty_args());
    assert_eq!(r.err(), Some(VoiceError::RequesterNotCollocated));
}

#[test]
fn listen_accepts_collocated_requester_and_clamps_overrides() {
    let mut m = VoiceManager::new(test_config(&[(1, 2)], 0));
    m.configure();
    m.register_session(1, 2, 0);
    m.update_user_voice_state(1, 9, Some(2));
    let mut args = serde_json::Map::new();
    args.insert(
        "listen_window_ms".to_string(),
        serde_json::Value::Number(serde_json::Number::from(500u64)),
    );
    args.insert(
        "chunk_gap_ms".to_string(),
        serde_json::Value::Number(serde_json::Number::from(9_000u64)),
    );
    args.insert(
        "max_turn_ms".to_string(),
        serde_json::Value::Number(serde_json::Number::from(100u64)),
    );
    let plan = m
        .prepare_listen("1", "9", &serde_json::Value::Object(args))
        .expect("listen should be accepted");
    assert_eq!(plan.guild_id, 1);
    assert_eq!(plan.channel_id, 2);
    // window clamped up to its floor, gap clamped down to its ceiling,
    // turn cap raised to the gap
    assert_eq!(plan.listen_window_ms, 1_000);
    assert_eq!(plan.chunk_gap_ms, 3_000);
    assert_eq!(plan.max_turn_ms, 3_000);
}

#[test]
fn listen_uses_defaults_without_overrides() {
    let mut m = VoiceManager::new(test_config(&[(1, 2)], 0));
    m.configure();
    m.register_session(1, 2, 0);
    m.update_user_voice_state(1, 9, Some(2));
    let plan = m.prepare_listen("1", "9", &empty_args()).expect("listen should be accepted");
    assert_eq!(plan.listen_window_ms, 12_000);
    assert_eq!(plan.chunk_gap_ms, 700);
    assert_eq!(plan.max_turn_ms, 30_000);
}

#[test]
fn listen_requires_a_session() {
    let mut m = VoiceManager::new(test_config(&[(1, 2)], 0));
    m.configure();
    m.update_user_voice_state(1, 9, Some(2));
    let r = m.prepare_listen("1", "9", &empty_args());
    assert_eq!(r.err(), Some(VoiceError::NoActiveSession));
}

#[test]
fn join_rejects_bad_identifiers() {
    let mut m = VoiceManager::new(test_config(&[(1, 2)], 0));
    m.configure();
    let r = m.prepare_join("not-a-number", "9", &empty_args());
    assert_eq!(r.err(), Some(VoiceError::InvalidIdentifier));
    let r2 = m.prepare_join("1", "", &empty_args());
    assert_eq!(r2.err(), Some(VoiceError::InvalidIdentifier));
}

#[test]
fn join_requires_presence_without_override() {
    let mut m = VoiceManager::new(test_config(&[(1, 2)], 0));
    m.configure();
    let r = m.prepare_join("1", "9", &empty_args());
    assert_eq!(r.err(), Some(VoiceError::NotInVoice));
}

#[test]
fn join_honours_channel_override_and_allowlist() {
    let mut m = VoiceManager::new(test_config(&[(1, 2)], 0));
    m.configure();
    let mut args = serde_json::Map::new();
    args.insert(
        "channel_id".to_string(),
        serde_json::Value::String("2".to_string()),
    );
    let plan = m
        .prepare_join("1", "9", &serde_json::Value::Object(args))
        .expect("join should be accepted");
    assert_eq!(plan.guild_id, 1);
    assert_eq!(plan.channel_id, 2);

    let mut bad = serde_json::Map::new();
    bad.insert(
        "channel_id".to_string(),
        serde_json::Value::String("4".to_string()),
    );
    let r = m.prepare_join("1", "9", &serde_json::Value::Object(bad));
    assert_eq!(r.err(), Some(VoiceError::ChannelNotAllowed));
}

#[test]
fn empty_allowlist_permits_nothing() {
    let mut m = VoiceManager::new(test_config(&[], 0));
    m.configure();
    m.update_user_voice_state(1, 9, Some(2));
    let r = m.prepare_join("1", "9", &empty_args());
    assert_eq!(r.err(), Some(VoiceError::ChannelNotAllowed));
}

#[test]
fn unconfigured_manager_fails_fast() {
    let mut m = VoiceManager::new(test_config(&[(1, 2)], 0));
    m.update_user_voice_state(1, 9, Some(2));
    m.register_session(1, 2, 0);
    assert_eq!(
        m.prepare_join("1", "9", &empty_args()).err(),
        Some(VoiceError::NotConfigured)
    );
    assert_eq!(
        m.prepare_listen("1", "9", &empty_args()).err(),
        Some(VoiceError::NotConfigured)
    );
    assert_eq!(m.prepare_leave("1", "9").err(), Some(VoiceError::NotConfigured));
    m.configure();
    assert!(m.prepare_listen("1", "9", &empty_args()).is_ok());
}

#[test]
fn join_rejects_unparsable_channel_override() {
    let mut m = VoiceManager::new(test_config(&[(1, 2)], 0));
    m.configure();
    m.update_user_voice_state(1, 9, Some(2));
    let mut args = serde_json::Map::new();
    args.insert(
        "channel_id".to_string(),
        serde_json::Value::String("general".to_string()),
    );
    let r = m.prepare_join("1", "9", &serde_json::Value::Object(args));
    assert_eq!(r.err(), Some(VoiceError::InvalidIdentifier));
}

#[test]
fn join_without_override_uses_presence_channel() {
    let mut m = VoiceManager::new(test_config(&[(1, 2)], 0));
    m.configure();
    m.update_user_voice_state(1, 9, Some(2));
    let plan = m.prepare_join("1", "9", &empty_args()).expect("join should be accepted");
    assert_eq!(plan.guild_id, 1);
    assert_eq!(plan.channel_id, 2);
}

#[test]
fn leave_checks_session_and_collocation() {
    let mut m = VoiceManager::new(test_config(&[(1, 2)], 0));
    m.configure();
    assert_eq!(m.prepare_leave("1", "9").err(), Some(VoiceError::NoActiveSession));
    m.register_session(1, 2, 0);
    assert_eq!(m.prepare_leave("1", "9").err(), Some(VoiceError::NotInVoice));
    m.update_user_voice_state(1, 9, Some(3));
    assert_eq!(m.prepare_leave("1", "9").err(), Some(VoiceError::RequesterNotCollocated));
    m.update_user_voice_state(1, 9, Some(2));
    assert_eq!(m.prepare_leave("1", "9").ok(), Some(1));
}

#[test]
fn presence_updates_follow_most_recent_event() {
    let mut m = VoiceManager::new(test_config(&[(1, 2)], 0));
    m.configure();
    m.register_session(1, 2, 0);
    m.update_user_voice_state(1, 9, Some(3));
    m.update_user_voice_state(1, 9, Some(2));
    assert_eq!(m.prepare_leave("1", "9").ok(), Some(1));
    m.update_user_voice_state(1, 9, None);
    assert_eq!(m.prepare_leave("1", "9").err(), Some(VoiceError::NotInVoice));
}

#[test]
fn manager_pop_and_ingest_reach_the_room_queue() {
    let mut m = VoiceManager::new(test_config(&[(1, 2)], 0));
    m.configure();
    m.register_session(1, 2, 0);
    assert!(m.ingest_tick_for(1, vec![(3, vec![7, 8])], 50));
    assert!(!m.ingest_tick_for(2, vec![(3, vec![7, 8])], 50));
    let chunk = m.pop_chunk_for(1).expect("queued chunk");
    assert_eq!(chunk.speaker_label, "ssrc:3");
    assert_eq!(chunk.pcm_samples, vec![7, 8]);
    assert!(m.pop_chunk_for(1).is_none());
    m.ingest_tick_for(1, vec![(3, vec![9])], 60);
    m.clear_session_chunks(1);
    assert!(m.pop_chunk_for(1).is_none());
}
