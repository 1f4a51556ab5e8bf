use companionpilot::chat::{
    clean_memory_value, default_system_prompt_base, fallback_search_query, normalize_for_compare,
    parse_search_command, sanitize_memory_key, ChatRole, SafetyPolicy,
};
use companionpilot::errors::VoiceError;
use companionpilot::pipeline::{
    check_transcript, clamp_tts_input, join_confirmation, leave_confirmation, listen_status,
    parse_discord_id, speaker_prefix, synthetic_user_id, transcript_for_orchestrator,
    truncate_for_tool_result, voice_message_id,
};

#[test]
fn fallback_query_compacts_user_prompt() {
    let query = fallback_search_query("What is the latest Rust release today?");
    assert_eq!(query, "rust release");
}

#[test]
fn normalize_compare_ignores_formatting() {
    let a = normalize_for_compare("What is  Rust?  ");
    let b = normalize_for_compare("what is rust");
    assert_eq!(a, b);
}

#[test]
fn sanitize_memory_key_normalizes_words() {
    assert_eq!(sanitize_memory_key("Favorite Game"), "favorite_game");
}

#[test]
fn clean_memory_value_trims_wrappers() {
    assert_eq!(clean_memory_value("\"Petr.\""), "Petr");
}

#[test]
fn orchestrator_sanitize_memory_key_normalizes_words() {
    assert_eq!(sanitize_memory_key("Favorite Game"), "favorite_game");
}

#[test]
fn orchestrator_clean_memory_value_trims_wrappers() {
    assert_eq!(clean_memory_value("\"Petr.\""), "Petr");
}

#[test]
fn sanitize_collapses_runs_and_trims_edges() {
    assert_eq!(sanitize_memory_key("  My--Favorite  Game!! "), "my_favorite_game");
    assert_eq!(sanitize_memory_key("___"), "");
}

#[test]
fn fallback_query_keeps_at_most_eight_tokens() {
    let query = fallback_search_query("one two three four five six seven eight nine ten");
    assert_eq!(query, "one two three four five six seven eight");
}

#[test]
fn fallback_query_falls_back_to_trimmed_input() {
    assert_eq!(fallback_search_query("  the latest  "), "the latest");
}

#[test]
fn search_command_is_detected_and_trimmed() {
    assert_eq!(parse_search_command("/search rust"), Some("rust".to_string()));
    assert_eq!(parse_search_command("  /search   rust  "), Some("rust".to_string()));
    assert_eq!(parse_search_command("/search    "), None);
    assert_eq!(parse_search_command("search rust"), None);
}

#[test]
fn chat_roles_have_wire_labels() {
    assert_eq!(ChatRole::User.as_str(), "user");
    assert_eq!(ChatRole::Assistant.as_str(), "assistant");
}

#[test]
fn default_prompt_base_is_stable() {
    assert!(default_system_prompt_base().starts_with("You are CompanionPilot"));
}

#[test]
fn safety_policy_flags_blocked_terms_case_insensitively() {
    let policy = SafetyPolicy::default();
    let flags = policy.validate_user_message("Please RM -RF my home directory");
    assert_eq!(flags, vec!["blocked-term:rm -rf".to_string()]);
    assert!(policy.validate_user_message("hello there").is_empty());
}

#[test]
fn discord_ids_parse_as_u64() {
    assert_eq!(parse_discord_id("42"), Ok(42));
    assert_eq!(parse_discord_id("+42"), Ok(42));
    assert_eq!(parse_discord_id("forty-two"), Err(VoiceError::InvalidIdentifier));
    assert_eq!(parse_discord_id(""), Err(VoiceError::InvalidIdentifier));
    assert_eq!(parse_discord_id("18446744073709551615"), Ok(u64::MAX));
    assert_eq!(
        parse_discord_id("18446744073709551616"),
        Err(VoiceError::InvalidIdentifier)
    );
}

#[test]
fn transcripts_must_have_content_after_trimming() {
    assert_eq!(check_transcript("  \n \t "), Err(VoiceError::EmptyTranscript));
    assert_eq!(check_transcript("  hello there "), Ok("hello there".to_string()));
}

#[test]
fn speaker_attribution_is_bracketed_and_joined() {
    let speakers: Vec<String> = Vec::new();
    assert_eq!(speaker_prefix(&speakers), "");
    let two = vec!["ssrc:1".to_string(), "ssrc:2".to_string()];
    assert_eq!(speaker_prefix(&two), "[speakers:ssrc:1,ssrc:2] ");
    assert_eq!(
        transcript_for_orchestrator(&two, "hello"),
        "[speakers:ssrc:1,ssrc:2] hello"
    );
}

#[test]
fn synthetic_identity_names_room_and_channel() {
    assert_eq!(synthetic_user_id(10, 20), "voice:10:20");
    assert_eq!(voice_message_id(1234), "voice-turn-1234");
}

#[test]
fn confirmations_match_the_tool_surface() {
    assert_eq!(join_confirmation(77), "Joined voice channel 77");
    assert_eq!(leave_confirmation(), "Left the voice channel.");
}

#[test]
fn tts_input_is_trimmed_and_capped() {
    assert_eq!(clamp_tts_input("  short reply  "), "short reply");
    let long = "x".repeat(5000);
    let clamped = clamp_tts_input(&long);
    assert_eq!(clamped.chars().count(), 4000);
}

#[test]
fn tool_results_are_flattened_and_capped() {
    assert_eq!(truncate_for_tool_result("a\nb", 10), "a b");
    assert_eq!(truncate_for_tool_result("abcdef", 4), "abcd...");
    let status = listen_status("hi\nthere");
    assert_eq!(
        status,
        "Processed voice turn and replied in voice. Transcript: hi there"
    );
    let long = "y".repeat(300);
    let capped = listen_status(&long);
    assert!(capped.ends_with("..."));
    assert_eq!(
        capped.chars().count(),
        "Processed voice turn and replied in voice. Transcript: ".chars().count() + 220 + 3
    );
}
