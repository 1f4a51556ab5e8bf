//! Per-room voice session state: the FIFO chunk queue, the activity
//! clock, and the audio sink adapter that turns transport audio ticks
//! into queued chunks.
//!
//! All waiting and waking is the caller's business; every operation here
//! is an immediate state transition on the queue and the clock.

use vstd::prelude::*;

use crate::text::{dec_chars, string_from_chars, u64_to_chars};
use crate::turn::AudioChunk;

verus! {

/// The state of one room's voice session.
#[derive(Debug)]
pub struct VoiceSession {
    /// The voice channel the session is bound to.
    pub channel_id: u64,
    /// The FIFO queue of chunks pushed by the sink adapter and consumed
    /// by the capture algorithm.
    pub queue: Vec<AudioChunk>,
    /// When the session last saw activity, in caller-supplied
    /// milliseconds.
    pub last_activity_ms: u64,
}

impl VoiceSession {
    /// A fresh session bound to `channel_id`, with an empty queue,
    /// touched at `now_ms`.
    pub fn new(channel_id: u64, now_ms: u64) -> (s: VoiceSession)
        ensures
            s.channel_id == channel_id,
            s.queue@.len() == 0,
            s.last_activity_ms == now_ms,
    {
        VoiceSession { channel_id, queue: Vec::new(), last_activity_ms: now_ms }
    }

    /// Updates the idle clock.
    pub fn touch(&mut self, now_ms: u64)
        ensures
            final(self).channel_id == old(self).channel_id,
            final(self).queue == old(self).queue,
            final(self).last_activity_ms == now_ms,
    {
        self.last_activity_ms = now_ms;
    }

    /// How long ago the session last saw activity; zero when the given
    /// clock reads earlier than the recorded activity.
    pub fn elapsed_since_last_activity(&self, now_ms: u64) -> (r: u64)
        ensures
            r == if now_ms >= self.last_activity_ms {
                now_ms - self.last_activity_ms
            } else {
                0
            },
    {
        if now_ms >= self.last_activity_ms {
            now_ms - self.last_activity_ms
        } else {
            0
        }
    }

    /// Drops every queued chunk, discarding backlog accumulated while
    /// nobody was listening.
    pub fn clear_chunks(&mut self)
        ensures
            final(self).channel_id == old(self).channel_id,
            final(self).queue@.len() == 0,
            final(self).last_activity_ms == old(self).last_activity_ms,
    {
        self.queue.clear();
    }

    /// Appends a chunk to the queue tail and touches the session.
    pub fn push_chunk(&mut self, chunk: AudioChunk, now_ms: u64)
        ensures
            final(self).channel_id == old(self).channel_id,
            final(self).queue@ == old(self).queue@.push(chunk),
            final(self).last_activity_ms == now_ms,
    {
        self.queue.push(chunk);
        self.last_activity_ms = now_ms;
    }

    /// Removes and returns the chunk at the queue head, in the exact
    /// order chunks were pushed, or nothing when the queue is empty. A
    /// caller that must not return empty-handed waits and retries.
    pub fn pop_chunk(&mut self) -> (r: Option<AudioChunk>)
        ensures
            final(self).channel_id == old(self).channel_id,
            final(self).last_activity_ms == old(self).last_activity_ms,
            old(self).queue@.len() == 0 ==> r is None && final(self).queue == old(self).queue,
            old(self).queue@.len() > 0 ==> r is Some && r->0 == old(self).queue@[0]
                && final(self).queue@ == old(self).queue@.drop_first(),
    {
        if self.queue.len() == 0 {
            return None;
        }
        let chunk = self.queue.remove(0);
        proof {
            assert(self.queue@ =~= old(self).queue@.drop_first());
        }
        Some(chunk)
    }

    /// How many chunks are queued.
    pub fn queue_len(&self) -> (r: usize)
        ensures
            r == self.queue@.len(),
    {
        self.queue.len()
    }
}

/// The label given to an audio source on the wire: `ssrc:` followed by
/// the source identifier in decimal.
pub open spec fn ssrc_label(ssrc: u32) -> Seq<char> {
    seq!['s', 's', 'r', 'c', ':'] + dec_chars(ssrc as int)
}

/// The chunks one audio tick contributes: one per source with a
/// non-empty payload, labeled by its wire identifier, in source order.
pub open spec fn tick_chunk_views(sources: Seq<(u32, Vec<i16>)>) -> Seq<(Seq<char>, Seq<i16>)>
    decreases sources.len(),
{
    if sources.len() == 0 {
        Seq::<(Seq<char>, Seq<i16>)>::empty()
    } else {
        let rest = tick_chunk_views(sources.drop_last());
        if sources.last().1@.len() == 0 {
            rest
        } else {
            rest.push((ssrc_label(sources.last().0), sources.last().1@))
        }
    }
}

/// The views of the labels and samples of a chunk sequence.
pub open spec fn queue_views(chunks: Seq<AudioChunk>) -> Seq<(Seq<char>, Seq<i16>)> {
    crate::turn::chunk_views(chunks)
}

/// Whether any source of the tick carries samples.
pub open spec fn tick_has_payload(sources: Seq<(u32, Vec<i16>)>) -> bool {
    exists|i: int| 0 <= i < sources.len() && (#[trigger] sources[i]).1@.len() > 0
}

/// The audio sink adapter: for every currently-speaking source with a
/// non-empty decoded payload, constructs a chunk labeled by the
/// source's wire identifier and pushes it to the session; sources with
/// no payload this tick are skipped. A pure translation layer.
pub fn ingest_tick(session: &mut VoiceSession, sources: Vec<(u32, Vec<i16>)>, now_ms: u64)
    ensures
        final(session).channel_id == old(session).channel_id,
        queue_views(final(session).queue@) == queue_views(old(session).queue@) + tick_chunk_views(
            sources@,
        ),
        final(session).last_activity_ms == if tick_has_payload(sources@) {
            now_ms
        } else {
            old(session).last_activity_ms
        },
{
    let ghost all = sources@;
    let mut remaining = sources;
    let mut i: usize = 0;
    assert(all.subrange(0, 0) =~= Seq::<(u32, Vec<i16>)>::empty());
    assert(queue_views(session.queue@) =~= queue_views(old(session).queue@) + tick_chunk_views(
        all.subrange(0, 0),
    ));
    while i < remaining.len()
        invariant
            remaining@ == all,
            i <= all.len(),
            session.channel_id == old(session).channel_id,
            queue_views(session.queue@) == queue_views(old(session).queue@) + tick_chunk_views(
                all.subrange(0, i as int),
            ),
            session.last_activity_ms == if tick_has_payload(all.subrange(0, i as int)) {
                now_ms
            } else {
                old(session).last_activity_ms
            },
        decreases all.len() - i,
    {
        let ghost shorter = all.subrange(0, i as int);
        let ghost longer = all.subrange(0, i + 1);
        assert(longer.drop_last() =~= shorter);
        assert(longer.last() == all[i as int]);
        let payload_len = remaining[i].1.len();
        if payload_len > 0 {
            let ssrc = remaining[i].0;
            let label_digits = u64_to_chars(ssrc as u64);
            let mut label_chars: Vec<char> = Vec::new();
            label_chars.push('s');
            label_chars.push('s');
            label_chars.push('r');
            label_chars.push('c');
            label_chars.push(':');
            let mut k: usize = 0;
            while k < label_digits.len()
                invariant
                    k <= label_digits@.len(),
                    label_digits@ == dec_chars(ssrc as int),
                    label_chars@ == seq!['s', 's', 'r', 'c', ':'] + label_digits@.subrange(
                        0,
                        k as int,
                    ),
                decreases label_digits@.len() - k,
            {
                label_chars.push(label_digits[k]);
                assert(label_chars@ =~= seq!['s', 's', 'r', 'c', ':'] + label_digits@.subrange(
                    0,
                    k + 1,
                ));
                k = k + 1;
            }
            assert(label_digits@.subrange(0, label_digits@.len() as int) =~= label_digits@);
            assert(label_chars@ =~= ssrc_label(ssrc));
            let label = string_from_chars(&label_chars);
            let mut samples: Vec<i16> = Vec::new();
            let mut j: usize = 0;
            while j < remaining[i].1.len()
                invariant
                    remaining@ == all,
                    i < all.len(),
                    j <= all[i as int].1@.len(),
                    samples@ == all[i as int].1@.subrange(0, j as int),
                decreases all[i as int].1@.len() - j,
            {
                samples.push(remaining[i].1[j]);
                assert(samples@ =~= all[i as int].1@.subrange(0, j + 1));
                j = j + 1;
            }
            assert(samples@ =~= all[i as int].1@);
            let new_chunk = AudioChunk { speaker_label: label, pcm_samples: samples };
            let ghost ch = new_chunk;
            let ghost pre = session.queue@;
            session.push_chunk(new_chunk, now_ms);
            proof {
                assert(session.queue@ == pre.push(ch));
                assert(ch.speaker_label@ == ssrc_label(ssrc));
                assert(ch.pcm_samples@ == all[i as int].1@);
                assert(queue_views(pre.push(ch)) =~= queue_views(pre).push(
                    (ch.speaker_label@, ch.pcm_samples@),
                ));
                assert(queue_views(session.queue@) =~= queue_views(old(session).queue@)
                    + tick_chunk_views(longer));
                assert(all[i as int].1@.len() > 0);
                assert(tick_has_payload(longer));
            }
        } else {
            proof {
                assert(tick_chunk_views(longer) =~= tick_chunk_views(shorter));
                assert(tick_has_payload(longer) == tick_has_payload(shorter)) by {
                    if tick_has_payload(longer) {
                        let k = choose|k: int|
                            0 <= k < longer.len() && (#[trigger] longer[k]).1@.len() > 0;
                        assert(k < shorter.len());
                        assert(shorter[k].1@.len() > 0);
                    } else {
                        assert(forall|k: int|
                            0 <= k < shorter.len() ==> (#[trigger] shorter[k]) == longer[k]);
                    }
                }
            }
        }
        i = i + 1;
    }
    assert(all.subrange(0, all.len() as int) =~= all);
}

} // verus!
