//! The voice manager: registry of per-room sessions, the presence map
//! used for authorization, join/leave/listen preparation, and the idle
//! reaper's eviction decision.
//!
//! The manager is the shared state of the engine; the asynchronous
//! driver around it performs the transport, speech and reasoning calls
//! and feeds their results back in as plain values.

use vstd::prelude::*;

use crate::config::VoiceRuntimeConfig;
use crate::text::parse_u64_spec;
use crate::errors::VoiceError;
use crate::session::VoiceSession;
use crate::turn::AudioChunk;

verus! {

/// Unique room keys in the session registry.
pub open spec fn sessions_wf(s: Seq<(u64, VoiceSession)>) -> bool {
    forall|i: int, j: int| 0 <= i < j < s.len() ==> (#[trigger] s[i]).0 != (#[trigger] s[j]).0
}

/// Unique (room, user) keys in the presence map.
pub open spec fn presence_wf(p: Seq<(u64, u64, u64)>) -> bool {
    forall|i: int, j: int|
        0 <= i < j < p.len() ==> !((#[trigger] p[i]).0 == (#[trigger] p[j]).0 && p[i].1 == p[j].1)
}

/// The session registered for `room`, if any.
pub open spec fn room_session(s: Seq<(u64, VoiceSession)>, room: u64) -> Option<VoiceSession> {
    if exists|i: int| 0 <= i < s.len() && (#[trigger] s[i]).0 == room {
        let i = choose|i: int| 0 <= i < s.len() && (#[trigger] s[i]).0 == room;
        Some(s[i].1)
    } else {
        None
    }
}

/// The channel the session for `room` is bound to, if any.
pub open spec fn room_channel(s: Seq<(u64, VoiceSession)>, room: u64) -> Option<u64> {
    match room_session(s, room) {
        Some(sess) => Some(sess.channel_id),
        None => None,
    }
}

/// The voice channel the presence map holds for `(room, user)`, if any.
pub open spec fn presence_channel(p: Seq<(u64, u64, u64)>, room: u64, user: u64) -> Option<u64> {
    if exists|i: int| 0 <= i < p.len() && (#[trigger] p[i]).0 == room && p[i].1 == user {
        let i = choose|i: int|
            0 <= i < p.len() && (#[trigger] p[i]).0 == room && p[i].1 == user;
        Some(p[i].2)
    } else {
        None
    }
}

/// An entry with the key determines the lookup.
pub proof fn lemma_room_session_at(s: Seq<(u64, VoiceSession)>, room: u64, i: int)
    requires
        sessions_wf(s),
        0 <= i < s.len(),
        s[i].0 == room,
    ensures
        room_session(s, room) == Some(s[i].1),
{
    let j = choose|j: int| 0 <= j < s.len() && (#[trigger] s[j]).0 == room;
    if i != j {
        if i < j {
            assert(s[i].0 != s[j].0);
        } else {
            assert(s[j].0 != s[i].0);
        }
    }
}

/// An entry with the key determines the presence lookup.
pub proof fn lemma_presence_at(p: Seq<(u64, u64, u64)>, room: u64, user: u64, i: int)
    requires
        presence_wf(p),
        0 <= i < p.len(),
        p[i].0 == room,
        p[i].1 == user,
    ensures
        presence_channel(p, room, user) == Some(p[i].2),
{
    let j = choose|j: int| 0 <= j < p.len() && (#[trigger] p[j]).0 == room && p[j].1 == user;
    if i != j {
        if i < j {
            assert(!(p[i].0 == p[j].0 && p[i].1 == p[j].1));
        } else {
            assert(!(p[j].0 == p[i].0 && p[j].1 == p[i].1));
        }
    }
}

/// Registry of sessions, presence map, configuration, and the
/// late-bound collaborator flag.
#[derive(Debug)]
pub struct VoiceManager {
    /// Immutable runtime configuration.
    pub config: VoiceRuntimeConfig,
    /// One session per room with an active connection; room keys are
    /// unique.
    pub sessions: Vec<(u64, VoiceSession)>,
    /// `(room, user) -> channel`, driven by inbound presence events;
    /// keys are unique.
    pub presence: Vec<(u64, u64, u64)>,
    /// Whether the transport and reasoning collaborators have been
    /// installed; until then every voice operation fails fast.
    pub configured: bool,
}

impl VoiceManager {
    /// Both maps hold no duplicate keys.
    pub open spec fn wf(&self) -> bool {
        sessions_wf(self.sessions@) && presence_wf(self.presence@)
    }

    /// A manager in the unconfigured state, with no sessions and an
    /// empty presence map.
    pub fn new(config: VoiceRuntimeConfig) -> (m: VoiceManager)
        ensures
            m.wf(),
            m.sessions@.len() == 0,
            m.presence@.len() == 0,
            !m.configured,
            m.config == config,
    {
        VoiceManager { config, sessions: Vec::new(), presence: Vec::new(), configured: false }
    }

    /// Marks the transport and reasoning collaborators installed; to be
    /// called once at startup, before any session activity.
    pub fn configure(&mut self)
        ensures
            final(self).config == old(self).config,
            final(self).sessions == old(self).sessions,
            final(self).presence == old(self).presence,
            final(self).configured,
    {
        self.configured = true;
    }

    /// Fails with `NotConfigured` until the collaborators are installed.
    pub fn require_configured(&self) -> (r: Result<(), VoiceError>)
        ensures
            r is Ok <==> self.configured,
            r is Err ==> r->Err_0 == VoiceError::NotConfigured,
    {
        if self.configured {
            Ok(())
        } else {
            Err(VoiceError::NotConfigured)
        }
    }

    /// The index of the presence entry for `(room, user)`.
    fn find_presence(&self, room: u64, user: u64) -> (r: Option<usize>)
        requires
            self.wf(),
        ensures
            r is Some ==> r->0 < self.presence@.len() && self.presence@[r->0 as int].0 == room
                && self.presence@[r->0 as int].1 == user && presence_channel(
                self.presence@,
                room,
                user,
            ) == Some(self.presence@[r->0 as int].2),
            r is None ==> presence_channel(self.presence@, room, user) is None,
    {
        let mut i: usize = 0;
        while i < self.presence.len()
            invariant
                self.wf(),
                i <= self.presence@.len(),
                forall|k: int|
                    0 <= k < i ==> !((#[trigger] self.presence@[k]).0 == room
                        && self.presence@[k].1 == user),
            decreases self.presence@.len() - i,
        {
            let entry = self.presence[i];
            if entry.0 == room && entry.1 == user {
                proof {
                    lemma_presence_at(self.presence@, room, user, i as int);
                }
                return Some(i);
            }
            i = i + 1;
        }
        None
    }

    /// Presence-map maintenance: a channel inserts or updates the
    /// mapping, no channel removes it. Pure bookkeeping; no
    /// authorization happens here.
    pub fn update_user_voice_state(&mut self, guild_id: u64, user_id: u64, channel_id: Option<u64>)
        requires
            old(self).wf(),
        ensures
            final(self).wf(),
            final(self).config == old(self).config,
            final(self).sessions == old(self).sessions,
            final(self).configured == old(self).configured,
            presence_channel(final(self).presence@, guild_id, user_id) == channel_id,
            forall|g: u64, u: u64|
                !(g == guild_id && u == user_id) ==> presence_channel(
                    final(self).presence@,
                    g,
                    u,
                ) == presence_channel(old(self).presence@, g, u),
    {
        let found = self.find_presence(guild_id, user_id);
        let ghost prev = self.presence@;
        match (found, channel_id) {
            (Some(i), Some(c)) => {
                let user_entry = self.presence[i];
                self.presence.set(i, (user_entry.0, user_entry.1, c));
                proof {
                    assert(self.presence@ == prev.update(i as int, (guild_id, user_id, c)));
                    assert(presence_wf(self.presence@));
                    lemma_presence_at(self.presence@, guild_id, user_id, i as int);
                    assert forall|g: u64, u: u64| !(g == guild_id && u == user_id) implies
                        presence_channel(self.presence@, g, u) == presence_channel(
                        prev,
                        g,
                        u,
                    ) by {
                        lemma_presence_update_other(prev, self.presence@, g, u);
                    }
                }
            },
            (None, Some(c)) => {
                self.presence.push((guild_id, user_id, c));
                proof {
                    assert(presence_wf(self.presence@)) by {
                        assert(forall|k: int|
                            0 <= k < prev.len() ==> !((#[trigger] prev[k]).0 == guild_id
                                && prev[k].1 == user_id)) by {
                            assert forall|k: int|
                                0 <= k < prev.len() implies !((#[trigger] prev[k]).0 == guild_id
                                && prev[k].1 == user_id) by {
                                if prev[k].0 == guild_id && prev[k].1 == user_id {
                                    lemma_presence_at(prev, guild_id, user_id, k);
                                }
                            }
                        }
                    }
                    lemma_presence_at(
                        self.presence@,
                        guild_id,
                        user_id,
                        self.presence@.len() - 1,
                    );
                    assert forall|g: u64, u: u64| !(g == guild_id && u == user_id) implies
                        presence_channel(self.presence@, g, u) == presence_channel(
                        prev,
                        g,
                        u,
                    ) by {
                        lemma_presence_update_other(prev, self.presence@, g, u);
                    }
                }
            },
            (Some(i), None) => {
                self.presence.remove(i);
                proof {
                    assert(self.presence@ == prev.remove(i as int));
                    assert(presence_wf(self.presence@)) by {
                        assert forall|a: int, b: int|
                            0 <= a < b < self.presence@.len() implies !((
                            #[trigger] self.presence@[a]).0 == (#[trigger] self.presence@[b]).0
                            && self.presence@[a].1 == self.presence@[b].1) by {
                            let a0 = if a < i {
                                a
                            } else {
                                a + 1
                            };
                            let b0 = if b < i {
                                b
                            } else {
                                b + 1
                            };
                            assert(self.presence@[a] == prev[a0] && self.presence@[b] == prev[b0]);
                            assert(!((prev[a0]).0 == (prev[b0]).0 && prev[a0].1 == prev[b0].1));
                        }
                    }
                    assert(presence_channel(self.presence@, guild_id, user_id) is None) by {
                        if exists|k: int|
                            0 <= k < self.presence@.len() && (#[trigger] self.presence@[k]).0
                                == guild_id && self.presence@[k].1 == user_id {
                            let k = choose|k: int|
                                0 <= k < self.presence@.len() && (#[trigger] self.presence@[k]).0
                                    == guild_id && self.presence@[k].1 == user_id;
                            let k0 = if k < i {
                                k
                            } else {
                                k + 1
                            };
                            assert(prev[k0] == self.presence@[k]);
                            assert(k0 != i);
                            if k0 < i {
                                assert(!((prev[k0]).0 == (prev[i as int]).0 && prev[k0].1
                                    == prev[i as int].1));
                            } else {
                                assert(!((prev[i as int]).0 == (prev[k0]).0 && prev[i as int].1
                                    == prev[k0].1));
                            }
                        }
                    }
                    assert forall|g: u64, u: u64| !(g == guild_id && u == user_id) implies
                        presence_channel(self.presence@, g, u) == presence_channel(
                        prev,
                        g,
                        u,
                    ) by {
                        lemma_presence_remove_other(prev, self.presence@, i as int, g, u);
                    }
                }
            },
            (None, None) => {
                proof {
                    assert(presence_channel(self.presence@, guild_id, user_id) is None);
                }
            },
        }
    }
}

impl VoiceManager {
    /// The index of the registry entry for `room`.
    fn find_session(&self, room: u64) -> (r: Option<usize>)
        requires
            self.wf(),
        ensures
            r is Some ==> r->0 < self.sessions@.len() && self.sessions@[r->0 as int].0 == room
                && room_session(self.sessions@, room) == Some(self.sessions@[r->0 as int].1),
            r is None ==> room_session(self.sessions@, room) is None,
    {
        let mut i: usize = 0;
        while i < self.sessions.len()
            invariant
                self.wf(),
                i <= self.sessions@.len(),
                forall|k: int| 0 <= k < i ==> (#[trigger] self.sessions@[k]).0 != room,
            decreases self.sessions@.len() - i,
        {
            if self.sessions[i].0 == room {
                proof {
                    lemma_room_session_at(self.sessions@, room, i as int);
                }
                return Some(i);
            }
            i = i + 1;
        }
        None
    }

    /// Touches the idle clock of the session for `room`, if one exists.
    pub fn touch_session(&mut self, room: u64, now_ms: u64)
        requires
            old(self).wf(),
        ensures
            final(self).wf(),
            final(self).config == old(self).config,
            final(self).presence == old(self).presence,
            final(self).configured == old(self).configured,
            match room_session(old(self).sessions@, room) {
                Some(sess) => room_session(final(self).sessions@, room) == Some(
                    VoiceSession {
                        last_activity_ms: now_ms,
                        ..sess
                    },
                ),
                None => final(self).sessions == old(self).sessions,
            },
            forall|g: u64|
                g != room ==> room_session(final(self).sessions@, g) == room_session(
                    old(self).sessions@,
                    g,
                ),
    {
        let found = self.find_session(room);
        let ghost prev = self.sessions@;
        match found {
            Some(i) => {
                self.sessions[i].1.touch(now_ms);
                proof {
                    assert(self.sessions@[i as int].0 == room);
                    assert(sessions_wf(self.sessions@)) by {
                        assert(forall|k: int|
                            0 <= k < prev.len() ==> (#[trigger] self.sessions@[k]).0
                                == prev[k].0);
                    }
                    lemma_room_session_at(self.sessions@, room, i as int);
                    assert forall|g: u64| g != room implies room_session(self.sessions@, g)
                        == room_session(prev, g) by {
                        lemma_sessions_agree_other(prev, self.sessions@, i as int, g);
                    }
                }
            },
            None => {},
        }
    }
}

/// How long ago a session last saw activity, on a caller-supplied
/// clock; zero when the clock reads earlier than the recorded activity.
pub open spec fn session_elapsed(s: VoiceSession, now_ms: int) -> int {
    if now_ms >= s.last_activity_ms {
        now_ms - s.last_activity_ms
    } else {
        0
    }
}

impl VoiceManager {
    /// Whether the idle reaper would evict `room` at `now_ms`: idle
    /// eviction is enabled, a session exists, and its inactivity has
    /// reached the threshold.
    pub open spec fn room_is_idle(&self, room: u64, now_ms: u64) -> bool {
        &&& self.config.idle_timeout_ms > 0
        &&& match room_session(self.sessions@, room) {
            Some(s) => session_elapsed(s, now_ms as int) >= self.config.idle_timeout_ms,
            None => false,
        }
    }

    /// Registers a fresh session for `room` bound to `channel`,
    /// replacing any previous entry for that room; other rooms are
    /// untouched.
    pub fn register_session(&mut self, room: u64, channel: u64, now_ms: u64)
        requires
            old(self).wf(),
        ensures
            final(self).wf(),
            final(self).config == old(self).config,
            final(self).presence == old(self).presence,
            final(self).configured == old(self).configured,
            ({
                let s = room_session(final(self).sessions@, room);
                &&& s is Some
                &&& s->0.channel_id == channel
                &&& s->0.queue@.len() == 0
                &&& s->0.last_activity_ms == now_ms
            }),
            forall|g: u64|
                g != room ==> room_session(final(self).sessions@, g) == room_session(
                    old(self).sessions@,
                    g,
                ),
    {
        let found = self.find_session(room);
        let ghost prev = self.sessions@;
        let fresh = VoiceSession::new(channel, now_ms);
        match found {
            Some(i) => {
                self.sessions.set(i, (room, fresh));
                proof {
                    assert(sessions_wf(self.sessions@)) by {
                        assert(forall|k: int|
                            0 <= k < prev.len() ==> (#[trigger] self.sessions@[k]).0
                                == prev[k].0);
                    }
                    lemma_room_session_at(self.sessions@, room, i as int);
                    assert forall|g: u64| g != room implies room_session(self.sessions@, g)
                        == room_session(prev, g) by {
                        lemma_sessions_agree_other(prev, self.sessions@, i as int, g);
                    }
                }
            },
            None => {
                self.sessions.push((room, fresh));
                proof {
                    assert(forall|k: int|
                        0 <= k < prev.len() ==> (#[trigger] prev[k]).0 != room) by {
                        assert forall|k: int|
                            0 <= k < prev.len() implies (#[trigger] prev[k]).0 != room by {
                            if prev[k].0 == room {
                                lemma_room_session_at(prev, room, k);
                            }
                        }
                    }
                    assert(sessions_wf(self.sessions@));
                    lemma_room_session_at(self.sessions@, room, self.sessions@.len() - 1);
                    assert forall|g: u64| g != room implies room_session(self.sessions@, g)
                        == room_session(prev, g) by {
                        lemma_sessions_push_other(prev, self.sessions@, g);
                    }
                }
            },
        }
    }

    /// Removes the session for `room`, if any; other rooms are
    /// untouched.
    pub fn remove_session(&mut self, room: u64)
        requires
            old(self).wf(),
        ensures
            final(self).wf(),
            final(self).config == old(self).config,
            final(self).presence == old(self).presence,
            final(self).configured == old(self).configured,
            room_session(final(self).sessions@, room) is None,
            forall|g: u64|
                g != room ==> room_session(final(self).sessions@, g) == room_session(
                    old(self).sessions@,
                    g,
                ),
    {
        let found = self.find_session(room);
        let ghost prev = self.sessions@;
        match found {
            Some(i) => {
                self.sessions.remove(i);
                proof {
                    assert(self.sessions@ == prev.remove(i as int));
                    assert(sessions_wf(self.sessions@)) by {
                        assert forall|a: int, b: int|
                            0 <= a < b < self.sessions@.len() implies (
                            #[trigger] self.sessions@[a]).0 != (#[trigger] self.sessions@[b]).0
                            by {
                            let a0 = if a < i {
                                a
                            } else {
                                a + 1
                            };
                            let b0 = if b < i {
                                b
                            } else {
                                b + 1
                            };
                            assert(self.sessions@[a] == prev[a0] && self.sessions@[b]
                                == prev[b0]);
                            assert(prev[a0].0 != prev[b0].0);
                        }
                    }
                    assert(room_session(self.sessions@, room) is None) by {
                        if exists|k: int|
                            0 <= k < self.sessions@.len() && (#[trigger] self.sessions@[k]).0
                                == room {
                            let k = choose|k: int|
                                0 <= k < self.sessions@.len() && (
                                #[trigger] self.sessions@[k]).0 == room;
                            let k0 = if k < i {
                                k
                            } else {
                                k + 1
                            };
                            assert(prev[k0] == self.sessions@[k]);
                            assert(k0 != i);
                            if k0 < i {
                                assert(prev[k0].0 != prev[i as int].0);
                            } else {
                                assert(prev[i as int].0 != prev[k0].0);
                            }
                        }
                    }
                    assert forall|g: u64| g != room implies room_session(self.sessions@, g)
                        == room_session(prev, g) by {
                        lemma_sessions_remove_other(prev, self.sessions@, i as int, g);
                    }
                }
            },
            None => {},
        }
    }

    /// The channel of the session registered for `room`, if any.
    pub fn session_channel(&self, room: u64) -> (r: Option<u64>)
        requires
            self.wf(),
        ensures
            r == room_channel(self.sessions@, room),
    {
        match self.find_session(room) {
            Some(i) => Some(self.sessions[i].1.channel_id),
            None => None,
        }
    }

    /// Drops every queued chunk of the session for `room`; used before a
    /// fresh capture to discard backlog. Nothing happens without a
    /// session.
    pub fn clear_session_chunks(&mut self, room: u64)
        requires
            old(self).wf(),
        ensures
            final(self).wf(),
            final(self).config == old(self).config,
            final(self).presence == old(self).presence,
            final(self).configured == old(self).configured,
            match room_session(old(self).sessions@, room) {
                Some(sess) => ({
                    let s = room_session(final(self).sessions@, room);
                    &&& s is Some
                    &&& s->0.channel_id == sess.channel_id
                    &&& s->0.queue@.len() == 0
                    &&& s->0.last_activity_ms == sess.last_activity_ms
                }),
                None => final(self).sessions == old(self).sessions,
            },
            forall|g: u64|
                g != room ==> room_session(final(self).sessions@, g) == room_session(
                    old(self).sessions@,
                    g,
                ),
    {
        let found = self.find_session(room);
        let ghost prev = self.sessions@;
        match found {
            Some(i) => {
                self.sessions[i].1.clear_chunks();
                proof {
                    assert(self.sessions@[i as int].0 == room);
                    assert(sessions_wf(self.sessions@)) by {
                        assert(forall|k: int|
                            0 <= k < prev.len() ==> (#[trigger] self.sessions@[k]).0
                                == prev[k].0);
                    }
                    lemma_room_session_at(self.sessions@, room, i as int);
                    assert forall|g: u64| g != room implies room_session(self.sessions@, g)
                        == room_session(prev, g) by {
                        lemma_sessions_agree_other(prev, self.sessions@, i as int, g);
                    }
                }
            },
            None => {},
        }
    }

    /// Pops the chunk at the head of the queue of `room`'s session, in
    /// push order: nothing without a session or with an empty queue.
    pub fn pop_chunk_for(&mut self, room: u64) -> (r: Option<AudioChunk>)
        requires
            old(self).wf(),
        ensures
            final(self).wf(),
            final(self).config == old(self).config,
            final(self).presence == old(self).presence,
            final(self).configured == old(self).configured,
            match room_session(old(self).sessions@, room) {
                Some(sess) => {
                    if sess.queue@.len() == 0 {
                        r is None && final(self).sessions@ == old(self).sessions@
                    } else {
                        r is Some && r->0 == sess.queue@[0] && ({
                            let s2 = room_session(final(self).sessions@, room);
                            &&& s2 is Some
                            &&& s2->0.channel_id == sess.channel_id
                            &&& s2->0.last_activity_ms == sess.last_activity_ms
                            &&& s2->0.queue@ == sess.queue@.drop_first()
                        })
                    }
                },
                None => r is None && final(self).sessions@ == old(self).sessions@,
            },
            forall|g: u64|
                g != room ==> room_session(final(self).sessions@, g) == room_session(
                    old(self).sessions@,
                    g,
                ),
    {
        let found = self.find_session(room);
        let ghost prev = self.sessions@;
        match found {
            Some(i) => {
                let r = self.sessions[i].1.pop_chunk();
                proof {
                    assert(self.sessions@[i as int].0 == room);
                    assert(sessions_wf(self.sessions@)) by {
                        assert(forall|k: int|
                            0 <= k < prev.len() ==> (#[trigger] self.sessions@[k]).0
                                == prev[k].0);
                    }
                    lemma_room_session_at(self.sessions@, room, i as int);
                    assert forall|g: u64| g != room implies room_session(self.sessions@, g)
                        == room_session(prev, g) by {
                        lemma_sessions_agree_other(prev, self.sessions@, i as int, g);
                    }
                    if prev[i as int].1.queue@.len() == 0 {
                        assert(self.sessions@ =~= prev);
                    }
                }
                r
            },
            None => None,
        }
    }

    /// Feeds one audio tick into `room`'s session: every source with a
    /// non-empty payload becomes a labeled chunk on the queue, and the
    /// session is touched. Returns whether a session existed.
    pub fn ingest_tick_for(&mut self, room: u64, sources: Vec<(u32, Vec<i16>)>, now_ms: u64) -> (had:
        bool)
        requires
            old(self).wf(),
        ensures
            final(self).wf(),
            final(self).config == old(self).config,
            final(self).presence == old(self).presence,
            final(self).configured == old(self).configured,
            had == room_session(old(self).sessions@, room) is Some,
            match room_session(old(self).sessions@, room) {
                Some(sess) => ({
                    let s = room_session(final(self).sessions@, room);
                    &&& s is Some
                    &&& s->0.channel_id == sess.channel_id
                    &&& crate::session::queue_views(s->0.queue@) == crate::session::queue_views(
                        sess.queue@,
                    ) + crate::session::tick_chunk_views(sources@)
                    &&& s->0.last_activity_ms == if crate::session::tick_has_payload(sources@) {
                        now_ms
                    } else {
                        sess.last_activity_ms
                    }
                }),
                None => final(self).sessions == old(self).sessions,
            },
            forall|g: u64|
                g != room ==> room_session(final(self).sessions@, g) == room_session(
                    old(self).sessions@,
                    g,
                ),
    {
        let found = self.find_session(room);
        let ghost prev = self.sessions@;
        match found {
            Some(i) => {
                crate::session::ingest_tick(&mut self.sessions[i].1, sources, now_ms);
                proof {
                    assert(self.sessions@[i as int].0 == room);
                    assert(sessions_wf(self.sessions@)) by {
                        assert(forall|k: int|
                            0 <= k < prev.len() ==> (#[trigger] self.sessions@[k]).0
                                == prev[k].0);
                    }
                    lemma_room_session_at(self.sessions@, room, i as int);
                    assert forall|g: u64| g != room implies room_session(self.sessions@, g)
                        == room_session(prev, g) by {
                        lemma_sessions_agree_other(prev, self.sessions@, i as int, g);
                    }
                }
                true
            },
            None => false,
        }
    }

    /// The rooms the idle reaper should evict at `now_ms`: none while
    /// idle eviction is disabled, otherwise exactly the rooms whose
    /// sessions have been inactive for the configured threshold.
    pub fn idle_rooms(&self, now_ms: u64) -> (r: Vec<u64>)
        requires
            self.wf(),
        ensures
            forall|g: u64| r@.contains(g) <==> self.room_is_idle(g, now_ms),
            forall|a: int, b: int| 0 <= a < b < r@.len() ==> r@[a] != r@[b],
    {
        let mut r: Vec<u64> = Vec::new();
        if self.config.idle_timeout_ms == 0 {
            return r;
        }
        let mut i: usize = 0;
        while i < self.sessions.len()
            invariant
                self.wf(),
                self.config.idle_timeout_ms > 0,
                i <= self.sessions@.len(),
                forall|g: u64|
                    #[trigger] r@.contains(g) <==> exists|k: int|
                        0 <= k < i && (#[trigger] self.sessions@[k]).0 == g && session_elapsed(
                            self.sessions@[k].1,
                            now_ms as int,
                        ) >= self.config.idle_timeout_ms,
                forall|a: int, b: int| 0 <= a < b < r@.len() ==> r@[a] != r@[b],
            decreases self.sessions@.len() - i,
        {
            let elapsed = self.sessions[i].1.elapsed_since_last_activity(now_ms);
            let ghost before = r@;
            if elapsed >= self.config.idle_timeout_ms {
                let key = self.sessions[i].0;
                proof {
                    if before.contains(key) {
                        let k = choose|k: int|
                            0 <= k < i && (#[trigger] self.sessions@[k]).0 == key
                                && session_elapsed(self.sessions@[k].1, now_ms as int)
                                >= self.config.idle_timeout_ms;
                        assert(self.sessions@[k].0 == self.sessions@[i as int].0);
                        assert(false);
                    }
                }
                r.push(key);
                proof {
                    assert forall|g: u64| #[trigger] r@.contains(g) implies exists|k: int|
                        0 <= k < i + 1 && (#[trigger] self.sessions@[k]).0 == g
                            && session_elapsed(self.sessions@[k].1, now_ms as int)
                            >= self.config.idle_timeout_ms by {
                        let j = choose|j: int| 0 <= j < r@.len() && r@[j] == g;
                        if j < before.len() {
                            assert(before[j] == g);
                            assert(before.contains(g));
                            let k = choose|k: int|
                                0 <= k < i && (#[trigger] self.sessions@[k]).0 == g
                                    && session_elapsed(self.sessions@[k].1, now_ms as int)
                                    >= self.config.idle_timeout_ms;
                            assert(self.sessions@[k].0 == g && session_elapsed(
                                self.sessions@[k].1,
                                now_ms as int,
                            ) >= self.config.idle_timeout_ms);
                        } else {
                            assert(g == key);
                            assert(self.sessions@[i as int].0 == g && session_elapsed(
                                self.sessions@[i as int].1,
                                now_ms as int,
                            ) >= self.config.idle_timeout_ms);
                        }
                    }
                    assert forall|g: u64|
                        (exists|k: int|
                            0 <= k < i + 1 && (#[trigger] self.sessions@[k]).0 == g
                                && session_elapsed(self.sessions@[k].1, now_ms as int)
                                >= self.config.idle_timeout_ms) implies #[trigger] r@.contains(
                        g,
                    ) by {
                        let k = choose|k: int|
                            0 <= k < i + 1 && (#[trigger] self.sessions@[k]).0 == g
                                && session_elapsed(self.sessions@[k].1, now_ms as int)
                                >= self.config.idle_timeout_ms;
                        if k < i {
                            assert(before.contains(g));
                            let j = choose|j: int| 0 <= j < before.len() && before[j] == g;
                            assert(r@[j] == g);
                        } else {
                            assert(g == key);
                            assert(r@[before.len() as int] == g);
                        }
                    }
                }
            } else {
                proof {
                    assert forall|g: u64|
                        (exists|k: int|
                            0 <= k < i + 1 && (#[trigger] self.sessions@[k]).0 == g
                                && session_elapsed(self.sessions@[k].1, now_ms as int)
                                >= self.config.idle_timeout_ms) implies #[trigger] r@.contains(
                        g,
                    ) by {
                        let k = choose|k: int|
                            0 <= k < i + 1 && (#[trigger] self.sessions@[k]).0 == g
                                && session_elapsed(self.sessions@[k].1, now_ms as int)
                                >= self.config.idle_timeout_ms;
                        assert(k < i);
                    }
                }
            }
            i = i + 1;
        }
        proof {
            assert forall|g: u64| #[trigger] r@.contains(g) implies self.room_is_idle(
                g,
                now_ms,
            ) by {
                let k = choose|k: int|
                    0 <= k < self.sessions@.len() && (#[trigger] self.sessions@[k]).0 == g
                        && session_elapsed(self.sessions@[k].1, now_ms as int)
                        >= self.config.idle_timeout_ms;
                lemma_room_session_at(self.sessions@, g, k);
            }
            assert forall|g: u64| self.room_is_idle(g, now_ms) implies #[trigger] r@.contains(
                g,
            ) by {
                let s = room_session(self.sessions@, g);
                let k = choose|k: int|
                    0 <= k < self.sessions@.len() && (#[trigger] self.sessions@[k]).0 == g;
                lemma_room_session_at(self.sessions@, g, k);
                assert(self.sessions@[k].0 == g && session_elapsed(
                    self.sessions@[k].1,
                    now_ms as int,
                ) >= self.config.idle_timeout_ms);
            }
        }
        r
    }

    /// Requires the requester to be in `expected_channel` of `room` per
    /// the presence map: `NotInVoice` without any presence entry,
    /// `RequesterNotCollocated` when the entry names another channel.
    pub fn ensure_requester_in_channel(
        &self,
        room: u64,
        requester_user: u64,
        expected_channel: u64,
    ) -> (r: Result<(), VoiceError>)
        requires
            self.wf(),
        ensures
            r is Ok <==> presence_channel(self.presence@, room, requester_user) == Some(
                expected_channel,
            ),
            r is Err ==> r->Err_0 == (if presence_channel(self.presence@, room, requester_user)
                is None {
                VoiceError::NotInVoice
            } else {
                VoiceError::RequesterNotCollocated
            }),
    {
        match self.find_presence(room, requester_user) {
            None => Err(VoiceError::NotInVoice),
            Some(i) => {
                let current = self.presence[i].2;
                if current == expected_channel {
                    Ok(())
                } else {
                    Err(VoiceError::RequesterNotCollocated)
                }
            },
        }
    }

    /// Rejects with `ChannelNotAllowed` unless the pair is in the
    /// non-empty allowlist; an empty allowlist permits nothing.
    pub fn ensure_allowlisted(&self, room: u64, channel: u64) -> (r: Result<(), VoiceError>)
        ensures
            r is Ok <==> self.config.allowlist@.len() > 0 && self.config.allowlist@.contains(
                (room, channel),
            ),
            r is Err ==> r->Err_0 == VoiceError::ChannelNotAllowed,
    {
        if self.config.is_allowed(room, channel) {
            Ok(())
        } else {
            Err(VoiceError::ChannelNotAllowed)
        }
    }

    /// Resolves the channel a join should target: an explicit override
    /// wins; otherwise the requester's current channel per the presence
    /// map, failing with `NotInVoice` if they are in none.
    pub fn resolve_join_channel(
        &self,
        room: u64,
        requester_user: u64,
        override_channel: Option<u64>,
    ) -> (r: Result<u64, VoiceError>)
        requires
            self.wf(),
        ensures
            override_channel is Some ==> r == Ok::<u64, VoiceError>(override_channel->0),
            override_channel is None ==> r == match presence_channel(
                self.presence@,
                room,
                requester_user,
            ) {
                Some(c) => Ok::<u64, VoiceError>(c),
                None => Err::<u64, VoiceError>(VoiceError::NotInVoice),
            },
    {
        match override_channel {
            Some(c) => Ok(c),
            None => {
                match self.find_presence(room, requester_user) {
                    Some(i) => Ok(self.presence[i].2),
                    None => Err(VoiceError::NotInVoice),
                }
            },
        }
    }
}

/// What a validated join still needs from the transport: the room and
/// the channel to connect to.
#[derive(Debug, Clone, Copy, PartialEq, Eq, Structural)]
pub struct JoinPlan {
    /// The room to join.
    pub guild_id: u64,
    /// The channel to connect to.
    pub channel_id: u64,
}

/// What a validated listen cycle runs with: the room, the session's
/// channel, and the three resolved capture parameters.
#[derive(Debug, Clone, Copy, PartialEq, Eq, Structural)]
pub struct ListenPlan {
    /// The room being listened to.
    pub guild_id: u64,
    /// The channel the session is bound to.
    pub channel_id: u64,
    /// Bound on the silence before any speech, in milliseconds.
    pub listen_window_ms: u64,
    /// Bound on the silence within a turn, in milliseconds.
    pub chunk_gap_ms: u64,
    /// Cap on the total turn duration, in milliseconds.
    pub max_turn_ms: u64,
}

impl VoiceManager {
    /// The exact outcome of validating a join request against this
    /// manager state: identifier parse failures (of the ids or of an
    /// explicit `channel_id` argument), the presence requirement when
    /// no override names a channel, the fail-closed allowlist, the
    /// collaborator guard, and otherwise the plan.
    pub open spec fn join_outcome(
        self,
        guild_raw: Seq<char>,
        requester_raw: Seq<char>,
        args: serde_json::Value,
    ) -> Result<JoinPlan, VoiceError> {
        match (parse_u64_spec(guild_raw), parse_u64_spec(requester_raw)) {
            (Option::None, _) => Err(VoiceError::InvalidIdentifier),
            (Option::Some(g), Option::None) => Err(VoiceError::InvalidIdentifier),
            (Option::Some(g), Option::Some(u)) => {
                let ov = crate::args::json_string_field(args, "channel_id"@);
                if ov is Some && parse_u64_spec(ov->0) is None {
                    Err(VoiceError::InvalidIdentifier)
                } else if ov is None && presence_channel(self.presence@, g, u) is None {
                    Err(VoiceError::NotInVoice)
                } else {
                    let c = if ov is Some {
                        parse_u64_spec(ov->0)->0
                    } else {
                        presence_channel(self.presence@, g, u)->0
                    };
                    if !(self.config.allowlist@.len() > 0 && self.config.allowlist@.contains(
                        (g, c),
                    )) {
                        Err(VoiceError::ChannelNotAllowed)
                    } else if !self.configured {
                        Err(VoiceError::NotConfigured)
                    } else {
                        Ok(JoinPlan { guild_id: g, channel_id: c })
                    }
                }
            },
        }
    }

    /// Validates a join request: parses the identifiers, resolves the
    /// target channel (an explicit `channel_id` argument wins over the
    /// requester's current channel), checks the allowlist, and requires
    /// the collaborators to be installed. The transport connection and
    /// session registration follow outside.
    pub fn prepare_join(
        &self,
        guild_id_raw: &str,
        requester_user_id_raw: &str,
        args: &serde_json::Value,
    ) -> (r: Result<JoinPlan, VoiceError>)
        requires
            self.wf(),
        ensures
            r == self.join_outcome(guild_id_raw@, requester_user_id_raw@, *args),
    {
        let guild_id = match crate::pipeline::parse_discord_id(guild_id_raw) {
            Ok(g) => g,
            Err(e) => {
                return Err(e);
            },
        };
        let requester_user_id = match crate::pipeline::parse_discord_id(requester_user_id_raw) {
            Ok(u) => u,
            Err(e) => {
                return Err(e);
            },
        };
        let ghost ov = crate::args::json_string_field(*args, "channel_id"@);
        let override_channel = match crate::args::arg_string(args, "channel_id") {
            Some(raw_channel) => {
                proof {
                    assert(ov is Some && raw_channel@ == ov->0);
                }
                match crate::pipeline::parse_discord_id(raw_channel.as_str()) {
                    Ok(c) => Some(c),
                    Err(e) => {
                        return Err(e);
                    },
                }
            },
            None => None,
        };
        let channel_id = match self.resolve_join_channel(
            guild_id,
            requester_user_id,
            override_channel,
        ) {
            Ok(c) => c,
            Err(e) => {
                return Err(e);
            },
        };
        match self.ensure_allowlisted(guild_id, channel_id) {
            Ok(unit) => unit,
            Err(e) => {
                return Err(e);
            },
        };
        match self.require_configured() {
            Ok(unit) => unit,
            Err(e) => {
                return Err(e);
            },
        };
        Ok(JoinPlan { guild_id, channel_id })
    }

    /// Validates a leave request: the identifiers must parse, a session
    /// must exist for the room, the requester must be in the session's
    /// channel, and the collaborators must be installed. Returns the
    /// room whose call the transport should now disconnect.
    pub fn prepare_leave(&self, guild_id_raw: &str, requester_user_id_raw: &str) -> (r: Result<
        u64,
        VoiceError,
    >)
        requires
            self.wf(),
        ensures
            r == match (parse_u64_spec(guild_id_raw@), parse_u64_spec(requester_user_id_raw@)) {
                (None, _) => Err::<u64, VoiceError>(VoiceError::InvalidIdentifier),
                (Some(g), None) => Err::<u64, VoiceError>(VoiceError::InvalidIdentifier),
                (Some(g), Some(u)) => match room_channel(self.sessions@, g) {
                    None => Err::<u64, VoiceError>(VoiceError::NoActiveSession),
                    Some(ch) => match presence_channel(self.presence@, g, u) {
                        None => Err::<u64, VoiceError>(VoiceError::NotInVoice),
                        Some(c) => if c != ch {
                            Err::<u64, VoiceError>(VoiceError::RequesterNotCollocated)
                        } else if !self.configured {
                            Err::<u64, VoiceError>(VoiceError::NotConfigured)
                        } else {
                            Ok::<u64, VoiceError>(g)
                        },
                    },
                },
            },
    {
        let guild_id = match crate::pipeline::parse_discord_id(guild_id_raw) {
            Ok(g) => g,
            Err(e) => {
                return Err(e);
            },
        };
        let requester_user_id = match crate::pipeline::parse_discord_id(requester_user_id_raw) {
            Ok(u) => u,
            Err(e) => {
                return Err(e);
            },
        };
        let channel_id = match self.session_channel(guild_id) {
            Some(c) => c,
            None => {
                return Err(VoiceError::NoActiveSession);
            },
        };
        match self.ensure_requester_in_channel(guild_id, requester_user_id, channel_id) {
            Ok(unit) => unit,
            Err(e) => {
                return Err(e);
            },
        };
        match self.require_configured() {
            Ok(unit) => unit,
            Err(e) => {
                return Err(e);
            },
        };
        Ok(guild_id)
    }

    /// The exact outcome of validating a listen request against this
    /// manager state: identifier parse failures, the session and
    /// collocation requirements, the fail-closed allowlist, the
    /// collaborator guard, and otherwise the plan with the three
    /// capture parameters resolved from the argument bag.
    pub open spec fn listen_outcome(
        self,
        guild_raw: Seq<char>,
        requester_raw: Seq<char>,
        args: serde_json::Value,
    ) -> Result<ListenPlan, VoiceError> {
        match (parse_u64_spec(guild_raw), parse_u64_spec(requester_raw)) {
            (Option::None, _) => Err(VoiceError::InvalidIdentifier),
            (Option::Some(g), Option::None) => Err(VoiceError::InvalidIdentifier),
            (Option::Some(g), Option::Some(u)) => match room_channel(self.sessions@, g) {
                Option::None => Err(VoiceError::NoActiveSession),
                Option::Some(ch) => match presence_channel(self.presence@, g, u) {
                    Option::None => Err(VoiceError::NotInVoice),
                    Option::Some(c) => if c != ch {
                        Err(VoiceError::RequesterNotCollocated)
                    } else if !(self.config.allowlist@.len() > 0
                        && self.config.allowlist@.contains((g, ch))) {
                        Err(VoiceError::ChannelNotAllowed)
                    } else if !self.configured {
                        Err(VoiceError::NotConfigured)
                    } else {
                        let params = crate::config::resolved_listen_params(
                            self.config,
                            crate::args::json_u64_field(args, "listen_window_ms"@),
                            crate::args::json_u64_field(args, "chunk_gap_ms"@),
                            crate::args::json_u64_field(args, "max_turn_ms"@),
                        );
                        Ok(
                            ListenPlan {
                                guild_id: g,
                                channel_id: ch,
                                listen_window_ms: params.0 as u64,
                                chunk_gap_ms: params.1 as u64,
                                max_turn_ms: params.2 as u64,
                            },
                        )
                    },
                },
            },
        }
    }

    /// Validates a listen request and resolves its capture parameters:
    /// the identifiers must parse, a session must exist, the requester
    /// must share its channel, the channel must be allowlisted, and the
    /// collaborators must be installed. Overrides in the argument bag
    /// are clamped to the fixed bounds; the turn cap never falls below
    /// the chunk gap.
    pub fn prepare_listen(
        &self,
        guild_id_raw: &str,
        requester_user_id_raw: &str,
        args: &serde_json::Value,
    ) -> (r: Result<ListenPlan, VoiceError>)
        requires
            self.wf(),
        ensures
            r == self.listen_outcome(guild_id_raw@, requester_user_id_raw@, *args),
            r is Ok ==> ({
                let plan = r->Ok_0;
                &&& crate::config::MIN_LISTEN_WINDOW_MS <= plan.listen_window_ms
                    <= crate::config::MAX_LISTEN_WINDOW_MS
                &&& crate::config::MIN_CHUNK_GAP_MS <= plan.chunk_gap_ms
                    <= crate::config::MAX_CHUNK_GAP_MS
                &&& plan.max_turn_ms >= plan.chunk_gap_ms
            }),
    {
        let guild_id = match crate::pipeline::parse_discord_id(guild_id_raw) {
            Ok(g) => g,
            Err(e) => {
                return Err(e);
            },
        };
        let requester_user_id = match crate::pipeline::parse_discord_id(requester_user_id_raw) {
            Ok(u) => u,
            Err(e) => {
                return Err(e);
            },
        };
        let channel_id = match self.session_channel(guild_id) {
            Some(c) => c,
            None => {
                return Err(VoiceError::NoActiveSession);
            },
        };
        match self.ensure_requester_in_channel(guild_id, requester_user_id, channel_id) {
            Ok(unit) => unit,
            Err(e) => {
                return Err(e);
            },
        };
        match self.ensure_allowlisted(guild_id, channel_id) {
            Ok(unit) => unit,
            Err(e) => {
                return Err(e);
            },
        };
        match self.require_configured() {
            Ok(unit) => unit,
            Err(e) => {
                return Err(e);
            },
        };
        let listen_window_override = crate::args::arg_u64(args, "listen_window_ms");
        let chunk_gap_override = crate::args::arg_u64(args, "chunk_gap_ms");
        let max_turn_override = crate::args::arg_u64(args, "max_turn_ms");
        let params = self.config.resolve_listen_params(
            listen_window_override,
            chunk_gap_override,
            max_turn_override,
        );
        Ok(
            ListenPlan {
                guild_id,
                channel_id,
                listen_window_ms: params.0,
                chunk_gap_ms: params.1,
                max_turn_ms: params.2,
            },
        )
    }
}

/// Appending an entry with a different key leaves a lookup unchanged.
proof fn lemma_sessions_push_other(
    prev: Seq<(u64, VoiceSession)>,
    cur: Seq<(u64, VoiceSession)>,
    g: u64,
)
    requires
        cur.len() == prev.len() + 1,
        forall|k: int| 0 <= k < prev.len() ==> #[trigger] cur[k] == prev[k],
        cur[cur.len() - 1].0 != g,
        sessions_wf(prev),
        sessions_wf(cur),
    ensures
        room_session(cur, g) == room_session(prev, g),
{
    if exists|k: int| 0 <= k < cur.len() && (#[trigger] cur[k]).0 == g {
        let k = choose|k: int| 0 <= k < cur.len() && (#[trigger] cur[k]).0 == g;
        assert(k < prev.len());
        assert(prev[k] == cur[k]);
        lemma_room_session_at(prev, g, k);
        lemma_room_session_at(cur, g, k);
    } else {
        if exists|k: int| 0 <= k < prev.len() && (#[trigger] prev[k]).0 == g {
            let k = choose|k: int| 0 <= k < prev.len() && (#[trigger] prev[k]).0 == g;
            assert(cur[k] == prev[k]);
        }
    }
}

/// Removing one entry leaves every other key's lookup unchanged.
proof fn lemma_sessions_remove_other(
    prev: Seq<(u64, VoiceSession)>,
    cur: Seq<(u64, VoiceSession)>,
    removed: int,
    g: u64,
)
    requires
        0 <= removed < prev.len(),
        cur == prev.remove(removed),
        sessions_wf(prev),
        sessions_wf(cur),
        prev[removed].0 != g,
    ensures
        room_session(cur, g) == room_session(prev, g),
{
    if exists|k: int| 0 <= k < cur.len() && (#[trigger] cur[k]).0 == g {
        let k = choose|k: int| 0 <= k < cur.len() && (#[trigger] cur[k]).0 == g;
        let k0 = if k < removed {
            k
        } else {
            k + 1
        };
        assert(cur[k] == prev[k0]);
        lemma_room_session_at(prev, g, k0);
        lemma_room_session_at(cur, g, k);
    } else {
        if exists|k: int| 0 <= k < prev.len() && (#[trigger] prev[k]).0 == g {
            let k = choose|k: int| 0 <= k < prev.len() && (#[trigger] prev[k]).0 == g;
            assert(k != removed);
            let k1 = if k < removed {
                k
            } else {
                k - 1
            };
            assert(cur[k1] == prev[k]);
        }
    }
}

/// Two registries of equal length that differ at most in one entry,
/// whose key is not `g`, agree on `g`'s lookup.
proof fn lemma_sessions_agree_other(
    prev: Seq<(u64, VoiceSession)>,
    cur: Seq<(u64, VoiceSession)>,
    changed: int,
    g: u64,
)
    requires
        prev.len() == cur.len(),
        0 <= changed < prev.len(),
        forall|k: int| 0 <= k < prev.len() && k != changed ==> #[trigger] cur[k] == prev[k],
        cur[changed].0 == prev[changed].0,
        prev[changed].0 != g,
        sessions_wf(prev),
        sessions_wf(cur),
    ensures
        room_session(cur, g) == room_session(prev, g),
{
    if exists|k: int| 0 <= k < cur.len() && (#[trigger] cur[k]).0 == g {
        let k = choose|k: int| 0 <= k < cur.len() && (#[trigger] cur[k]).0 == g;
        assert(k != changed);
        assert(prev[k] == cur[k]);
        lemma_room_session_at(prev, g, k);
        lemma_room_session_at(cur, g, k);
    } else {
        if exists|k: int| 0 <= k < prev.len() && (#[trigger] prev[k]).0 == g {
            let k = choose|k: int| 0 <= k < prev.len() && (#[trigger] prev[k]).0 == g;
            assert(k != changed);
            assert(cur[k] == prev[k]);
        }
    }
}

/// Two maps that agree on every entry with a key agree on that key's
/// lookup; used after an update that leaves the key's entries alone.
proof fn lemma_presence_update_other(
    prev: Seq<(u64, u64, u64)>,
    cur: Seq<(u64, u64, u64)>,
    g: u64,
    u: u64,
)
    requires
        prev.len() == cur.len() || prev.len() + 1 == cur.len(),
        forall|k: int|
            0 <= k < prev.len() ==> ((#[trigger] prev[k]).0 == g && prev[k].1 == u) ==> cur[k]
                == prev[k],
        forall|k: int|
            0 <= k < cur.len() ==> ((#[trigger] cur[k]).0 == g && cur[k].1 == u) ==> k
                < prev.len() && cur[k] == prev[k],
        presence_wf(prev),
        presence_wf(cur),
    ensures
        presence_channel(cur, g, u) == presence_channel(prev, g, u),
{
    if exists|k: int| 0 <= k < cur.len() && (#[trigger] cur[k]).0 == g && cur[k].1 == u {
        let k = choose|k: int| 0 <= k < cur.len() && (#[trigger] cur[k]).0 == g && cur[k].1 == u;
        assert(prev[k] == cur[k]);
        lemma_presence_at(prev, g, u, k);
        lemma_presence_at(cur, g, u, k);
    } else {
        if exists|k: int| 0 <= k < prev.len() && (#[trigger] prev[k]).0 == g && prev[k].1 == u {
            let k = choose|k: int|
                0 <= k < prev.len() && (#[trigger] prev[k]).0 == g && prev[k].1 == u;
            assert(cur[k] == prev[k]);
        }
    }
}

/// Removing one entry leaves every other key's lookup unchanged.
proof fn lemma_presence_remove_other(
    prev: Seq<(u64, u64, u64)>,
    cur: Seq<(u64, u64, u64)>,
    removed: int,
    g: u64,
    u: u64,
)
    requires
        0 <= removed < prev.len(),
        cur == prev.remove(removed),
        presence_wf(prev),
        presence_wf(cur),
        !(prev[removed].0 == g && prev[removed].1 == u),
    ensures
        presence_channel(cur, g, u) == presence_channel(prev, g, u),
{
    if exists|k: int| 0 <= k < cur.len() && (#[trigger] cur[k]).0 == g && cur[k].1 == u {
        let k = choose|k: int| 0 <= k < cur.len() && (#[trigger] cur[k]).0 == g && cur[k].1 == u;
        let k0 = if k < removed {
            k
        } else {
            k + 1
        };
        assert(cur[k] == prev[k0]);
        lemma_presence_at(prev, g, u, k0);
        lemma_presence_at(cur, g, u, k);
    } else {
        if exists|k: int| 0 <= k < prev.len() && (#[trigger] prev[k]).0 == g && prev[k].1 == u {
            let k = choose|k: int|
                0 <= k < prev.len() && (#[trigger] prev[k]).0 == g && prev[k].1 == u;
            assert(k != removed);
            let k1 = if k < removed {
                k
            } else {
                k - 1
            };
            assert(cur[k1] == prev[k]);
        }
    }
}

} // verus!
