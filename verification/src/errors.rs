//! The error taxonomy of the voice engine.
//!
//! Authorization and precondition failures are surfaced to the caller at
//! once; pipeline-stage failures abort the current listen cycle but leave
//! the session usable for the next attempt.

use vstd::prelude::*;

verus! {

/// Everything that can go wrong in a voice operation.
#[derive(Debug, Clone, Copy, PartialEq, Eq, Structural)]
pub enum VoiceError {
    /// A room, channel or user identifier could not be parsed.
    InvalidIdentifier,
    /// The requester is not currently in any voice channel of the room.
    NotInVoice,
    /// The (room, channel) pair is not in the configured allowlist.
    ChannelNotAllowed,
    /// The external voice transport failed to join or leave.
    TransportError,
    /// No session is registered for the room.
    NoActiveSession,
    /// The requester is in a different channel than the session.
    RequesterNotCollocated,
    /// No chunk arrived within the listen window.
    CaptureTimeout,
    /// A captured turn carried no samples.
    EmptyTurn,
    /// Speech-to-text failed.
    SttFailed,
    /// The transcript was blank after trimming.
    EmptyTranscript,
    /// The reasoning collaborator failed to produce a reply.
    ReplyGenerationFailed,
    /// Text-to-speech failed.
    TtsFailed,
    /// The transport reports the room is no longer connected.
    NotConnected,
    /// The transport or reasoning handle has not been configured yet.
    NotConfigured,
}

impl VoiceError {
    /// A short, stable description of the error.
    pub fn describe(&self) -> (r: &'static str)
        ensures
            r@.len() > 0,
    {
        let s: &'static str = match self {
            VoiceError::InvalidIdentifier => "invalid identifier",
            VoiceError::NotInVoice => "requesting user is not currently in a voice channel",
            VoiceError::ChannelNotAllowed => "voice channel is not in configured allowlist",
            VoiceError::TransportError => "voice transport operation failed",
            VoiceError::NoActiveSession => "no active voice session for this room",
            VoiceError::RequesterNotCollocated => "requesting user must be in the same voice channel as the bot",
            VoiceError::CaptureTimeout => "timed out waiting for next speaking event",
            VoiceError::EmptyTurn => "captured speaking turn had no PCM audio",
            VoiceError::SttFailed => "STT transcription failed",
            VoiceError::EmptyTranscript => "transcription returned empty text",
            VoiceError::ReplyGenerationFailed => "failed to generate assistant reply for voice turn",
            VoiceError::TtsFailed => "TTS synthesis failed",
            VoiceError::NotConnected => "bot is no longer connected to voice",
            VoiceError::NotConfigured => "voice engine is not configured",
        };
        proof {
            reveal_strlit("invalid identifier");
            reveal_strlit("requesting user is not currently in a voice channel");
            reveal_strlit("voice channel is not in configured allowlist");
            reveal_strlit("voice transport operation failed");
            reveal_strlit("no active voice session for this room");
            reveal_strlit("requesting user must be in the same voice channel as the bot");
            reveal_strlit("timed out waiting for next speaking event");
            reveal_strlit("captured speaking turn had no PCM audio");
            reveal_strlit("STT transcription failed");
            reveal_strlit("transcription returned empty text");
            reveal_strlit("failed to generate assistant reply for voice turn");
            reveal_strlit("TTS synthesis failed");
            reveal_strlit("bot is no longer connected to voice");
            reveal_strlit("voice engine is not configured");
        }
        s
    }
}

} // verus!
