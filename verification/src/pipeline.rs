//! Pure steps of the listen-and-respond pipeline: identifier parsing,
//! transcript validation, speaker attribution, the synthetic message
//! identity, reply clamping for speech synthesis, and the status line.

use vstd::prelude::*;
use vstd::string::StringExecFns;

use crate::config::MAX_TTS_INPUT_CHARS;
use crate::errors::VoiceError;
use crate::text::{
    chars_of, join_spec, parse_u64_chars, parse_u64_spec, string_from_chars, string_views,
    subvec_chars, trim_chars, trim_spec, u64_to_string, dec_chars, views_of, CharClass,
};

verus! {

/// Parses a caller-supplied identifier, as the platform renders them:
/// an unsigned 64-bit decimal number.
pub fn parse_discord_id(raw: &str) -> (r: Result<u64, VoiceError>)
    ensures
        r == match parse_u64_spec(raw@) {
            Some(n) => Ok::<u64, VoiceError>(n),
            None => Err::<u64, VoiceError>(VoiceError::InvalidIdentifier),
        },
{
    let v = chars_of(raw);
    match parse_u64_chars(&v) {
        Some(n) => Ok(n),
        None => Err(VoiceError::InvalidIdentifier),
    }
}

/// Trims the transcript and rejects a blank one with `EmptyTranscript`.
pub fn check_transcript(transcript: &str) -> (r: Result<String, VoiceError>)
    ensures
        trim_spec(transcript@, CharClass::Space).len() == 0 <==> r is Err,
        r is Err ==> r->Err_0 == VoiceError::EmptyTranscript,
        r is Ok ==> (r->Ok_0)@ == trim_spec(transcript@, CharClass::Space),
{
    let v = chars_of(transcript);
    let trimmed = trim_chars(&v, CharClass::Space);
    if trimmed.len() == 0 {
        return Err(VoiceError::EmptyTranscript);
    }
    Ok(string_from_chars(&trimmed))
}

/// The bracketed, comma-joined speaker attribution put before the
/// transcript; empty when no speaker was recorded.
pub open spec fn speaker_prefix_spec(speakers: Seq<Seq<char>>) -> Seq<char> {
    if speakers.len() == 0 {
        Seq::<char>::empty()
    } else {
        "[speakers:"@ + join_spec(speakers, ","@) + "] "@
    }
}

/// Builds the speaker attribution prefix.
pub fn speaker_prefix(speakers: &Vec<String>) -> (r: String)
    ensures
        r@ == speaker_prefix_spec(string_views(speakers@)),
{
    if speakers.len() == 0 {
        let empty = String::new();
        return empty;
    }
    let mut parts: Vec<Vec<char>> = Vec::new();
    let mut i: usize = 0;
    while i < speakers.len()
        invariant
            i <= speakers@.len(),
            views_of(parts@) == string_views(speakers@).subrange(0, i as int),
        decreases speakers@.len() - i,
    {
        let part = chars_of(speakers[i].as_str());
        let ghost prev_parts = parts@;
        proof {
            assert(views_of(prev_parts).len() == prev_parts.len());
            assert(string_views(speakers@).subrange(0, i as int).len() == i);
            assert(prev_parts.len() == i);
        }
        parts.push(part);
        proof {
            assert(parts@.len() == i + 1);
            assert forall|k: int| 0 <= k < i + 1 implies views_of(parts@)[k] == string_views(
                speakers@,
            ).subrange(0, i + 1)[k] by {
                assert(views_of(parts@)[k] == parts@[k]@);
                if k < i {
                    assert(parts@[k] == prev_parts[k]);
                    assert(views_of(prev_parts)[k] == prev_parts[k]@);
                    assert(views_of(prev_parts)[k] == string_views(speakers@).subrange(
                        0,
                        i as int,
                    )[k]);
                } else {
                    assert(parts@[k] == part);
                    assert(part@ == speakers@[i as int]@);
                }
            }
            assert(views_of(parts@) =~= string_views(speakers@).subrange(0, i + 1));
        }
        i = i + 1;
    }
    assert(string_views(speakers@).subrange(0, speakers@.len() as int) =~= string_views(
        speakers@,
    ));
    let sep = chars_of(",");
    let joined = crate::text::join_chars(&parts, &sep);
    let mut s = "[speakers:".to_owned();
    s.append(string_from_chars(&joined).as_str());
    s.append("] ");
    s
}

/// The transcript as handed to the reasoning collaborator: the speaker
/// attribution, then the trimmed transcript.
pub fn transcript_for_orchestrator(speakers: &Vec<String>, transcript: &str) -> (r: String)
    ensures
        r@ == speaker_prefix_spec(string_views(speakers@)) + transcript@,
{
    let mut s = speaker_prefix(speakers);
    s.append(transcript);
    s
}

/// The synthetic user identity of a voice turn: the room and channel
/// pair, not an individual human.
pub fn synthetic_user_id(guild_id: u64, channel_id: u64) -> (r: String)
    ensures
        r@ == "voice:"@ + dec_chars(guild_id as int) + ":"@ + dec_chars(channel_id as int),
{
    let mut s = "voice:".to_owned();
    s.append(u64_to_string(guild_id).as_str());
    s.append(":");
    s.append(u64_to_string(channel_id).as_str());
    s
}

/// The synthetic message identifier of a voice turn, from a timestamp
/// in milliseconds.
pub fn voice_message_id(timestamp_ms: u64) -> (r: String)
    ensures
        r@ == "voice-turn-"@ + dec_chars(timestamp_ms as int),
{
    let mut s = "voice-turn-".to_owned();
    s.append(u64_to_string(timestamp_ms).as_str());
    s
}

/// The confirmation a successful join returns.
pub fn join_confirmation(channel_id: u64) -> (r: String)
    ensures
        r@ == "Joined voice channel "@ + dec_chars(channel_id as int),
{
    let mut s = "Joined voice channel ".to_owned();
    s.append(u64_to_string(channel_id).as_str());
    s
}

/// The confirmation a successful leave returns.
pub fn leave_confirmation() -> (r: String)
    ensures
        r@ == "Left the voice channel."@,
{
    "Left the voice channel.".to_owned()
}

/// The reply prefix handed to text-to-speech: trimmed, and cut to the
/// fixed character budget to bound synthesis cost.
pub fn clamp_tts_input(input: &str) -> (r: String)
    ensures
        ({
            let t = trim_spec(input@, CharClass::Space);
            r@ == if t.len() <= MAX_TTS_INPUT_CHARS {
                t
            } else {
                t.subrange(0, MAX_TTS_INPUT_CHARS as int)
            }
        }),
{
    let v = chars_of(input);
    let trimmed = trim_chars(&v, CharClass::Space);
    if trimmed.len() <= MAX_TTS_INPUT_CHARS {
        string_from_chars(&trimmed)
    } else {
        let cut = subvec_chars(&trimmed, 0, MAX_TTS_INPUT_CHARS);
        string_from_chars(&cut)
    }
}

/// `s` with every newline replaced by a space.
pub open spec fn flatten_newlines(s: Seq<char>) -> Seq<char> {
    s.map_values(
        |c: char|
            if c == '\n' {
                ' '
            } else {
                c
            },
    )
}

/// A length-capped, newline-stripped copy of the text, with an ellipsis
/// appended when anything was cut.
pub fn truncate_for_tool_result(input: &str, max_chars: usize) -> (r: String)
    ensures
        ({
            let c = flatten_newlines(input@);
            r@ == if c.len() <= max_chars {
                c
            } else {
                c.subrange(0, max_chars as int) + "..."@
            }
        }),
{
    let v = chars_of(input);
    let mut compact: Vec<char> = Vec::new();
    let mut i: usize = 0;
    while i < v.len()
        invariant
            i <= v@.len(),
            compact@ == flatten_newlines(v@.subrange(0, i as int)),
        decreases v@.len() - i,
    {
        let c = v[i];
        if c == '\n' {
            compact.push(' ');
        } else {
            compact.push(c);
        }
        assert(compact@ =~= flatten_newlines(v@.subrange(0, i + 1)));
        i = i + 1;
    }
    assert(v@.subrange(0, v@.len() as int) =~= v@);
    assert(compact@ == flatten_newlines(v@));
    if compact.len() <= max_chars {
        string_from_chars(&compact)
    } else {
        let cut = subvec_chars(&compact, 0, max_chars);
        let mut s = string_from_chars(&cut);
        s.append("...");
        s
    }
}

/// The short status string a completed listen cycle returns, carrying a
/// capped copy of the transcript for logging.
pub fn listen_status(transcript: &str) -> (r: String)
    ensures
        ({
            let c = flatten_newlines(transcript@);
            r@ == "Processed voice turn and replied in voice. Transcript: "@ + (if c.len() <= 220 {
                c
            } else {
                c.subrange(0, 220) + "..."@
            })
        }),
{
    let capped = truncate_for_tool_result(transcript, 220);
    let mut s = "Processed voice turn and replied in voice. Transcript: ".to_owned();
    s.append(capped.as_str());
    s
}

} // verus!
