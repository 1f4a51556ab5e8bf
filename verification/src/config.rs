//! Runtime configuration of the voice engine: the operator-controlled
//! allowlist of (room, channel) pairs and the default timing parameters,
//! together with the clamping of per-call overrides.

use vstd::prelude::*;

use crate::text::{
    all_digits, chars_of, char_in_class, in_class, parse_u64_chars, parse_u64_spec, split_chars,
    split_spec, subvec_chars, trim_chars, trim_spec, views_of, CharClass,
};

verus! {

/// Default bound on the silence before any speech, in milliseconds.
pub const DEFAULT_LISTEN_WINDOW_MS: u64 = 12000;

/// Default bound on the silence within a turn, in milliseconds.
pub const DEFAULT_CHUNK_GAP_MS: u64 = 700;

/// Smallest accepted listen window, in milliseconds.
pub const MIN_LISTEN_WINDOW_MS: u64 = 1000;

/// Largest accepted listen window, in milliseconds.
pub const MAX_LISTEN_WINDOW_MS: u64 = 60000;

/// Smallest accepted chunk gap, in milliseconds.
pub const MIN_CHUNK_GAP_MS: u64 = 100;

/// Largest accepted chunk gap, in milliseconds.
pub const MAX_CHUNK_GAP_MS: u64 = 3000;

/// Largest reply prefix handed to text-to-speech, in characters.
pub const MAX_TTS_INPUT_CHARS: usize = 4000;

/// The default listen window, in milliseconds.
pub fn default_listen_window() -> (r: u64)
    ensures
        r == DEFAULT_LISTEN_WINDOW_MS,
{
    DEFAULT_LISTEN_WINDOW_MS
}

/// The default chunk gap, in milliseconds.
pub fn default_chunk_gap() -> (r: u64)
    ensures
        r == DEFAULT_CHUNK_GAP_MS,
{
    DEFAULT_CHUNK_GAP_MS
}

/// The pair a single allowlist entry denotes: the entry is trimmed, must
/// hold exactly one colon, and both sides must read as unsigned 64-bit
/// integers after trimming; anything else denotes nothing.
pub open spec fn entry_pair(entry: Seq<char>) -> Option<(u64, u64)> {
    let t = trim_spec(entry, CharClass::Space);
    if t.len() == 0 {
        None
    } else {
        let parts = split_spec(t, ':');
        if parts.len() != 2 {
            None
        } else {
            let g = parse_u64_spec(trim_spec(parts[0], CharClass::Space));
            let c = parse_u64_spec(trim_spec(parts[1], CharClass::Space));
            if g is Some && c is Some {
                Some((g->0, c->0))
            } else {
                None
            }
        }
    }
}

/// Whether `(g, c)` is denoted by one of the first `n` entries.
pub open spec fn denoted_up_to(entries: Seq<Seq<char>>, n: int, g: u64, c: u64) -> bool {
    exists|k: int| 0 <= k < n && entry_pair(#[trigger] entries[k]) == Some((g, c))
}

/// Whether `(g, c)` is denoted by some comma-separated entry of `raw`.
pub open spec fn allow_pair(raw: Seq<char>, g: u64, c: u64) -> bool {
    denoted_up_to(split_spec(raw, ','), split_spec(raw, ',').len() as int, g, c)
}

/// Runtime configuration of the voice engine. Immutable after
/// construction. An empty allowlist permits nothing.
#[derive(Debug, Clone)]
pub struct VoiceRuntimeConfig {
    /// Credential for the speech services; opaque to this engine.
    pub openai_api_key: String,
    /// Speech-to-text model identifier; opaque to this engine.
    pub stt_model: String,
    /// Text-to-speech model identifier; opaque to this engine.
    pub tts_model: String,
    /// Text-to-speech voice identifier; opaque to this engine.
    pub tts_voice: String,
    /// The (room, channel) pairs where voice capture is permitted,
    /// without duplicates.
    pub allowlist: Vec<(u64, u64)>,
    /// Idle eviction threshold in milliseconds; zero disables eviction.
    pub idle_timeout_ms: u64,
    /// Default bound on silence within a turn, in milliseconds.
    pub default_chunk_gap_ms: u64,
    /// Default bound on silence before any speech, in milliseconds.
    pub default_listen_window_ms: u64,
    /// Default cap on total turn duration, in milliseconds.
    pub default_max_turn_ms: u64,
}

/// `x` forced into the closed interval `[lo, hi]`.
pub open spec fn clamp_spec(x: int, lo: int, hi: int) -> int {
    if x < lo {
        lo
    } else if x > hi {
        hi
    } else {
        x
    }
}

impl VoiceRuntimeConfig {
    /// Parses operator-controlled permission pairs: entries separated by
    /// commas, each `room:channel` with unsigned 64-bit identifiers.
    /// Malformed entries are silently dropped; the result holds each
    /// denoted pair exactly once.
    pub fn parse_allowlist(raw: &str) -> (r: Vec<(u64, u64)>)
        ensures
            forall|g: u64, c: u64| r@.contains((g, c)) <==> allow_pair(raw@, g, c),
            forall|a: int, b: int| 0 <= a < b < r@.len() ==> r@[a] != r@[b],
    {
        let v = chars_of(raw);
        let entries = split_chars(&v, ',');
        let ghost entry_views = split_spec(raw@, ',');
        let mut r: Vec<(u64, u64)> = Vec::new();
        let mut i: usize = 0;
        while i < entries.len()
            invariant
                entries@.len() == entry_views.len(),
                views_of(entries@) == entry_views,
                entry_views == split_spec(raw@, ','),
                i <= entries@.len(),
                forall|g: u64, c: u64|
                    #[trigger] r@.contains((g, c)) <==> denoted_up_to(entry_views, i as int, g, c),
                forall|a: int, b: int| 0 <= a < b < r@.len() ==> r@[a] != r@[b],
            decreases entries@.len() - i,
        {
            assert(entry_views[i as int] == entries@[i as int]@);
            let pair = entry_to_pair(&entries[i]);
            match pair {
                Some(p) => {
                    if !pair_present(&r, p.0, p.1) {
                        let ghost prev = r@;
                        r.push(p);
                        proof {
                            assert forall|g: u64, c: u64| #[trigger] r@.contains((g, c))
                                implies denoted_up_to(entry_views, i + 1, g, c) by {
                                let j = choose|j: int| 0 <= j < r@.len() && r@[j] == (g, c);
                                if j < prev.len() {
                                    assert(prev[j] == (g, c));
                                    assert(prev.contains((g, c)));
                                    let k = choose|k: int|
                                        0 <= k < i && entry_pair(#[trigger] entry_views[k])
                                            == Some((g, c));
                                    assert(entry_pair(entry_views[k]) == Some((g, c)));
                                } else {
                                    assert((g, c) == p);
                                    assert(entry_pair(entry_views[i as int]) == Some((g, c)));
                                }
                            }
                            assert forall|g: u64, c: u64|
                                denoted_up_to(entry_views, i + 1, g, c)
                                implies #[trigger] r@.contains((g, c)) by {
                                let k = choose|k: int|
                                    0 <= k < i + 1 && entry_pair(#[trigger] entry_views[k])
                                        == Some((g, c));
                                if k < i {
                                    assert(denoted_up_to(entry_views, i as int, g, c));
                                    assert(prev.contains((g, c)));
                                    let j = choose|j: int|
                                        0 <= j < prev.len() && prev[j] == (g, c);
                                    assert(r@[j] == (g, c));
                                } else {
                                    assert((g, c) == p);
                                    assert(r@[prev.len() as int] == (g, c));
                                }
                            }
                            assert forall|a: int, b: int| 0 <= a < b < r@.len()
                                implies r@[a] != r@[b] by {
                                if b == prev.len() {
                                    assert(r@[a] == prev[a]);
                                    assert(prev.contains(prev[a]));
                                    assert(!prev.contains(p));
                                }
                            }
                        }
                    } else {
                        proof {
                            assert forall|g: u64, c: u64|
                                denoted_up_to(entry_views, i + 1, g, c)
                                implies #[trigger] r@.contains((g, c)) by {
                                let k = choose|k: int|
                                    0 <= k < i + 1 && entry_pair(#[trigger] entry_views[k])
                                        == Some((g, c));
                                if k < i {
                                    assert(denoted_up_to(entry_views, i as int, g, c));
                                } else {
                                    assert((g, c) == p);
                                }
                            }
                            assert forall|g: u64, c: u64| #[trigger] r@.contains((g, c))
                                implies denoted_up_to(entry_views, i + 1, g, c) by {
                                assert(denoted_up_to(entry_views, i as int, g, c));
                                let k = choose|k: int|
                                    0 <= k < i && entry_pair(#[trigger] entry_views[k]) == Some(
                                        (g, c),
                                    );
                                assert(entry_pair(entry_views[k]) == Some((g, c)));
                            }
                        }
                    }
                },
                None => {
                    proof {
                        assert forall|g: u64, c: u64| denoted_up_to(entry_views, i + 1, g, c)
                            implies #[trigger] r@.contains((g, c)) by {
                            let k = choose|k: int|
                                0 <= k < i + 1 && entry_pair(#[trigger] entry_views[k]) == Some(
                                    (g, c),
                                );
                            assert(k < i);
                            assert(denoted_up_to(entry_views, i as int, g, c));
                        }
                        assert forall|g: u64, c: u64| #[trigger] r@.contains((g, c))
                            implies denoted_up_to(entry_views, i + 1, g, c) by {
                            assert(denoted_up_to(entry_views, i as int, g, c));
                            let k = choose|k: int|
                                0 <= k < i && entry_pair(#[trigger] entry_views[k]) == Some(
                                    (g, c),
                                );
                            assert(entry_pair(entry_views[k]) == Some((g, c)));
                        }
                    }
                },
            }
            i = i + 1;
        }
        r
    }
}

/// Whether `(g, c)` already stands in `r`.
fn pair_present(r: &Vec<(u64, u64)>, g: u64, c: u64) -> (b: bool)
    ensures
        b == r@.contains((g, c)),
{
    let mut i: usize = 0;
    while i < r.len()
        invariant
            i <= r@.len(),
            forall|k: int| 0 <= k < i ==> r@[k] != (g, c),
        decreases r@.len() - i,
    {
        let q = r[i];
        if q.0 == g && q.1 == c {
            assert(r@[i as int] == (g, c));
            return true;
        }
        assert(r@[i as int] != (g, c));
        i = i + 1;
    }
    false
}

/// Reads one allowlist entry as a pair, or nothing if it is malformed.
fn entry_to_pair(entry: &Vec<char>) -> (r: Option<(u64, u64)>)
    ensures
        r == entry_pair(entry@),
{
    let t = trim_chars(entry, CharClass::Space);
    if t.len() == 0 {
        return None;
    }
    let parts = split_chars(&t, ':');
    if parts.len() != 2 {
        return None;
    }
    assert(views_of(parts@)[0] == parts@[0]@ && views_of(parts@)[1] == parts@[1]@);
    let g_part = trim_chars(&parts[0], CharClass::Space);
    let c_part = trim_chars(&parts[1], CharClass::Space);
    let g = parse_u64_chars(&g_part);
    let c = parse_u64_chars(&c_part);
    match (g, c) {
        (Some(gv), Some(cv)) => Some((gv, cv)),
        _ => None,
    }
}

/// The three capture parameters resolved from optional per-call
/// overrides: window and gap clamped to their fixed bounds, the turn
/// cap defaulted and then raised to at least the chunk gap.
pub open spec fn resolved_listen_params(
    cfg: VoiceRuntimeConfig,
    listen_window_ms: Option<u64>,
    chunk_gap_ms: Option<u64>,
    max_turn_ms: Option<u64>,
) -> (int, int, int) {
    let window = clamp_spec(
        if listen_window_ms is Some {
            listen_window_ms->0 as int
        } else {
            cfg.default_listen_window_ms as int
        },
        MIN_LISTEN_WINDOW_MS as int,
        MAX_LISTEN_WINDOW_MS as int,
    );
    let gap = clamp_spec(
        if chunk_gap_ms is Some {
            chunk_gap_ms->0 as int
        } else {
            cfg.default_chunk_gap_ms as int
        },
        MIN_CHUNK_GAP_MS as int,
        MAX_CHUNK_GAP_MS as int,
    );
    let turn_raw = if max_turn_ms is Some {
        max_turn_ms->0 as int
    } else {
        cfg.default_max_turn_ms as int
    };
    let turn = if turn_raw >= gap {
        turn_raw
    } else {
        gap
    };
    (window, gap, turn)
}

impl VoiceRuntimeConfig {
    /// Whether `(room, channel)` is permitted: the allowlist must be
    /// non-empty (empty is fail-closed) and hold the pair.
    pub fn is_allowed(&self, room: u64, channel: u64) -> (b: bool)
        ensures
            b == (self.allowlist@.len() > 0 && self.allowlist@.contains((room, channel))),
    {
        if self.allowlist.len() == 0 {
            return false;
        }
        pair_present(&self.allowlist, room, channel)
    }

    /// Resolves the three capture parameters from optional per-call
    /// overrides: window and gap are clamped to their fixed bounds, the
    /// turn cap falls back to the configured default and is raised to at
    /// least the chunk gap.
    pub fn resolve_listen_params(
        &self,
        listen_window_ms: Option<u64>,
        chunk_gap_ms: Option<u64>,
        max_turn_ms: Option<u64>,
    ) -> (r: (u64, u64, u64))
        ensures
            (r.0 as int, r.1 as int, r.2 as int) == resolved_listen_params(
                *self,
                listen_window_ms,
                chunk_gap_ms,
                max_turn_ms,
            ),
    {
        let window_raw = match listen_window_ms {
            Some(w) => w,
            None => self.default_listen_window_ms,
        };
        let gap_raw = match chunk_gap_ms {
            Some(g) => g,
            None => self.default_chunk_gap_ms,
        };
        let turn_raw = match max_turn_ms {
            Some(t) => t,
            None => self.default_max_turn_ms,
        };
        let window = clamp_u64(window_raw, MIN_LISTEN_WINDOW_MS, MAX_LISTEN_WINDOW_MS);
        let gap = clamp_u64(gap_raw, MIN_CHUNK_GAP_MS, MAX_CHUNK_GAP_MS);
        let turn = if turn_raw >= gap {
            turn_raw
        } else {
            gap
        };
        (window, gap, turn)
    }
}

/// Forces `x` into `[lo, hi]`.
fn clamp_u64(x: u64, lo: u64, hi: u64) -> (r: u64)
    requires
        lo <= hi,
    ensures
        r == clamp_spec(x as int, lo as int, hi as int),
{
    if x < lo {
        lo
    } else if x > hi {
        hi
    } else {
        x
    }
}

} // verus!
