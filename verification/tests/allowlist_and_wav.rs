use companionpilot::config::VoiceRuntimeConfig;
use companionpilot::wav::{decode_wav_header, pcm_i16_to_wav_bytes};

#[test]
fn allowlist_parser_reads_pairs() {
    let parsed = VoiceRuntimeConfig::parse_allowlist("1:2,3:4,invalid");
    assert_eq!(parsed.len(), 2);
    assert!(parsed.contains(&(1, 2)));
    assert!(parsed.contains(&(3, 4)));
}

#[test]
fn allowlist_parser_empty_input_yields_nothing() {
    let parsed = VoiceRuntimeConfig::parse_allowlist("");
    assert!(parsed.is_empty());
}

#[test]
fn allowlist_parser_trims_and_deduplicates() {
    let parsed = VoiceRuntimeConfig::parse_allowlist(" 1 : 2 ,1:2, 3:4 ");
    assert_eq!(parsed.len(), 2);
    assert!(parsed.contains(&(1, 2)));
    assert!(parsed.contains(&(3, 4)));
}

#[test]
fn allowlist_parser_rejects_malformed_entries() {
    let parsed = VoiceRuntimeConfig::parse_allowlist("1:2:3,:,5:,:6,7:eight,9:10");
    assert_eq!(parsed.len(), 1);
    assert!(parsed.contains(&(9, 10)));
}

#[test]
fn allowlist_parser_accepts_plus_signed_numbers() {
    let parsed = VoiceRuntimeConfig::parse_allowlist("+1:+2");
    assert_eq!(parsed.len(), 1);
    assert!(parsed.contains(&(1, 2)));
}

#[test]
fn wav_header_size_matches_payload() {
    let samples = vec![0_i16; 480];
    let wav = pcm_i16_to_wav_bytes(&samples, 2, 48_000);
    assert!(wav.len() > 44);
    assert_eq!(&wav[0..4], b"RIFF");
    assert_eq!(&wav[8..12], b"WAVE");
}

#[test]
fn wav_header_fields_are_exact() {
    let samples: Vec<i16> = vec![1, -2, 3];
    let wav = pcm_i16_to_wav_bytes(&samples, 1, 8_000);
    assert_eq!(wav.len(), 44 + 6);
    // chunk size = 36 + data size
    assert_eq!(&wav[4..8], &(36u32 + 6).to_le_bytes());
    assert_eq!(&wav[12..16], b"fmt ");
    // format chunk length and PCM tag
    assert_eq!(&wav[16..20], &16u32.to_le_bytes());
    assert_eq!(&wav[20..22], &1u16.to_le_bytes());
    // channels, rate, byte rate, block align, bit depth
    assert_eq!(&wav[22..24], &1u16.to_le_bytes());
    assert_eq!(&wav[24..28], &8_000u32.to_le_bytes());
    assert_eq!(&wav[28..32], &16_000u32.to_le_bytes());
    assert_eq!(&wav[32..34], &2u16.to_le_bytes());
    assert_eq!(&wav[34..36], &16u16.to_le_bytes());
    assert_eq!(&wav[36..40], b"data");
    assert_eq!(&wav[40..44], &6u32.to_le_bytes());
    // little-endian two's-complement samples
    assert_eq!(&wav[44..50], &[1, 0, 0xFE, 0xFF, 3, 0]);
}

#[test]
fn wav_round_trip_recovers_format() {
    let samples: Vec<i16> = (0..480).map(|i| (i - 240) as i16).collect();
    let wav = pcm_i16_to_wav_bytes(&samples, 2, 48_000);
    let header = decode_wav_header(&wav).expect("encoded buffer should decode");
    assert_eq!(header.channels, 2);
    assert_eq!(header.sample_rate, 48_000);
    assert_eq!(header.bits_per_sample, 16);
    assert_eq!(header.data_size, 2 * 480);
}

#[test]
fn wav_decoder_rejects_foreign_bytes() {
    assert!(decode_wav_header(b"not a wav").is_none());
    let mut wav = pcm_i16_to_wav_bytes(&[0_i16; 4], 1, 44_100);
    wav[0] = b'X';
    assert!(decode_wav_header(&wav).is_none());
}
