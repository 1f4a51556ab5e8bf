//! Turn data types and the turn-capture algorithm.
//!
//! A turn is one contiguous unit of captured speech. The capture
//! algorithm waits up to a listen window for a first chunk, then keeps
//! absorbing chunks while they arrive within the chunk gap, and stops at
//! the silence gap or at the turn-length cap. [`capture_turn`] gives the
//! reference semantics over a recorded timeline of chunk arrivals; a
//! live driver makes the same decisions through [`next_wait_budget`] and
//! [`assemble_turn`].

use vstd::prelude::*;

use crate::errors::VoiceError;
use crate::text::{
    chars_eq, chars_le, chars_le_exec, chars_of, lemma_chars_le_antisymmetric,
    lemma_chars_le_total, lemma_chars_le_transitive,
};

verus! {

/// One decoded packet of audio from one speaking source.
#[derive(Debug, Clone)]
pub struct AudioChunk {
    /// Wire identifier of the source that produced the samples.
    pub speaker_label: String,
    /// The decoded 16-bit PCM samples.
    pub pcm_samples: Vec<i16>,
}

/// The accumulated result of one turn-capture cycle.
#[derive(Debug)]
pub struct CapturedTurn {
    /// The labels of every source heard during the turn, sorted and
    /// without duplicates.
    pub speakers: Vec<String>,
    /// The concatenated samples of the turn, in arrival order.
    pub pcm_samples: Vec<i16>,
}

/// A chunk together with its arrival time, in milliseconds from the
/// start of the capture cycle.
#[derive(Debug, Clone)]
pub struct TimedChunk {
    /// When the chunk arrived, relative to the start of listening.
    pub at_ms: u64,
    /// The chunk itself.
    pub chunk: AudioChunk,
}

/// The mathematical content of a chunk: its label and its samples.
pub open spec fn chunk_view(c: AudioChunk) -> (Seq<char>, Seq<i16>) {
    (c.speaker_label@, c.pcm_samples@)
}

/// The views of a sequence of chunks.
pub open spec fn chunk_views(chunks: Seq<AudioChunk>) -> Seq<(Seq<char>, Seq<i16>)> {
    chunks.map_values(|c: AudioChunk| chunk_view(c))
}

/// The samples of all chunks, concatenated in order.
pub open spec fn concat_samples(chunks: Seq<(Seq<char>, Seq<i16>)>) -> Seq<i16>
    decreases chunks.len(),
{
    if chunks.len() == 0 {
        Seq::<i16>::empty()
    } else {
        concat_samples(chunks.drop_last()) + chunks.last().1
    }
}

/// Whether some chunk carries the label `s`.
pub open spec fn has_label(chunks: Seq<(Seq<char>, Seq<i16>)>, s: Seq<char>) -> bool {
    exists|i: int| 0 <= i < chunks.len() && (#[trigger] chunks[i]).0 == s
}

/// Whether the label `s` stands in the speaker list.
pub open spec fn speaker_listed(speakers: Seq<String>, s: Seq<char>) -> bool {
    exists|i: int| 0 <= i < speakers.len() && (#[trigger] speakers[i])@ == s
}

/// Whether the speaker list is sorted by code point and free of
/// duplicates.
pub open spec fn speakers_sorted(speakers: Seq<String>) -> bool {
    forall|a: int, b: int|
        0 <= a < b < speakers.len() ==> chars_le(
            (#[trigger] speakers[a])@,
            (#[trigger] speakers[b])@,
        ) && speakers[a]@ != speakers[b]@
}

/// Adds `label` to a sorted, duplicate-free speaker list, keeping it
/// sorted and duplicate-free.
fn insert_speaker(speakers: &mut Vec<String>, label: &String)
    requires
        speakers_sorted(old(speakers)@),
    ensures
        speakers_sorted(final(speakers)@),
        forall|s: Seq<char>|
            speaker_listed(final(speakers)@, s) <==> speaker_listed(old(speakers)@, s) || s
                == label@,
{
    let label_chars = chars_of(label.as_str());
    let mut p: usize = 0;
    loop
        invariant_except_break
            speakers_sorted(speakers@),
            speakers@ == old(speakers)@,
            label_chars@ == label@,
            p <= speakers@.len(),
            forall|k: int|
                0 <= k < p ==> chars_le((#[trigger] speakers@[k])@, label@) && speakers@[k]@
                    != label@,
        ensures
            speakers@ == old(speakers)@,
            label_chars@ == label@,
            p <= speakers@.len(),
            forall|k: int|
                0 <= k < p ==> chars_le((#[trigger] speakers@[k])@, label@) && speakers@[k]@
                    != label@,
            p < speakers@.len() ==> (speakers@[p as int]@ == label@ || !chars_le(
                speakers@[p as int]@,
                label@,
            )),
        decreases speakers@.len() - p,
    {
        if p == speakers.len() {
            break ;
        }
        let cur = chars_of(speakers[p].as_str());
        if chars_eq(&cur, &label_chars) {
            break ;
        }
        if !chars_le_exec(&cur, &label_chars) {
            break ;
        }
        p = p + 1;
    }
    if p < speakers.len() {
        let cur = chars_of(speakers[p].as_str());
        if chars_eq(&cur, &label_chars) {
            proof {
                assert(speakers@[p as int]@ == label@);
                assert forall|s: Seq<char>|
                    speaker_listed(speakers@, s) <==> speaker_listed(old(speakers)@, s) || s
                        == label@ by {
                    if s == label@ {
                        assert(speakers@[p as int]@ == s);
                    }
                }
            }
            return ;
        }
    }
    let ghost prev = speakers@;
    proof {
        if p < prev.len() {
            lemma_chars_le_total(prev[p as int]@, label@);
            assert(chars_le(label@, prev[p as int]@));
            assert(prev[p as int]@ != label@);
        }
    }
    let cloned = label.clone();
    let ghost elem = cloned;
    speakers.insert(p, cloned);
    proof {
        assert(prev == old(speakers)@);
        assert(speakers@ == prev.insert(p as int, elem));
        assert(elem@ == label@);
        assert forall|j: int| 0 <= j < speakers@.len() implies (#[trigger] speakers@[j])@ == (
        if j < p {
            prev[j]@
        } else if j == p {
            label@
        } else {
            prev[j - 1]@
        }) by {
            if j < p {
                assert(prev.insert(p as int, elem)[j] == prev[j]);
            } else if j == p {
                assert(prev.insert(p as int, elem)[j] == elem);
            } else {
                assert(prev.insert(p as int, elem)[j] == prev[j - 1]);
            }
        }
        assert forall|a: int, b: int| 0 <= a < b < speakers@.len() implies chars_le(
            (#[trigger] speakers@[a])@,
            (#[trigger] speakers@[b])@,
        ) && speakers@[a]@ != speakers@[b]@ by {
            let av = speakers@[a]@;
            let bv = speakers@[b]@;
            if a < p && b == p {
                // av precedes the label; they differ by the scan.
            } else if a == p && b > p {
                // label precedes prev[b - 1].
                assert(bv == prev[b - 1]@);
                if p < prev.len() {
                    if b - 1 == p {
                        assert(chars_le(label@, bv));
                        assert(label@ != bv);
                    } else {
                        assert(chars_le(prev[p as int]@, bv));
                        lemma_chars_le_transitive(label@, prev[p as int]@, bv);
                        if label@ == bv {
                            assert(chars_le(prev[p as int]@, label@));
                        }
                    }
                }
            } else if a < p && b > p {
                assert(av == prev[a]@ && bv == prev[b - 1]@);
                if a == b - 1 {
                    assert(chars_le(av, label@));
                    assert(false);
                }
            } else if a >= p && b > p && a > p {
                assert(av == prev[a - 1]@ && bv == prev[b - 1]@);
            }
        }
        assert forall|s: Seq<char>|
            speaker_listed(speakers@, s) <==> speaker_listed(prev, s) || s == label@ by {
            if speaker_listed(speakers@, s) {
                let j = choose|j: int| 0 <= j < speakers@.len() && speakers@[j]@ == s;
                if j < p {
                    assert(prev[j]@ == s);
                } else if j == p {
                    assert(s == label@);
                } else {
                    assert(prev[j - 1]@ == s);
                }
            }
            if speaker_listed(prev, s) {
                let j = choose|j: int| 0 <= j < prev.len() && prev[j]@ == s;
                if j < p {
                    assert(speakers@[j]@ == s);
                } else {
                    assert(speakers@[j + 1]@ == s);
                }
            }
            if s == label@ {
                assert(speakers@[p as int]@ == s);
            }
        }
        assert(forall|s: Seq<char>|
            speaker_listed(speakers@, s) <==> speaker_listed(old(speakers)@, s) || s == label@);
    }
}

/// How long the capture may still wait for the next chunk, given the
/// moment the turn clock started and the moment the last chunk was
/// consumed: nothing once the turn cap is reached, otherwise the
/// remaining turn time bounded by the chunk gap.
pub open spec fn wait_budget_spec(t0: int, last: int, gap: int, max_turn: int) -> Option<u64> {
    if last - t0 >= max_turn {
        None
    } else if max_turn - (last - t0) < gap {
        Some((max_turn - (last - t0)) as u64)
    } else {
        Some(gap as u64)
    }
}

/// Decides how long to wait for the next chunk: `None` ends the turn at
/// the length cap; otherwise the wait is the remaining turn time, at
/// most one chunk gap.
pub fn next_wait_budget(t0_ms: u64, last_ms: u64, chunk_gap_ms: u64, max_turn_ms: u64) -> (r:
    Option<u64>)
    requires
        t0_ms <= last_ms,
    ensures
        r == wait_budget_spec(t0_ms as int, last_ms as int, chunk_gap_ms as int, max_turn_ms as int),
{
    let elapsed = last_ms - t0_ms;
    if elapsed >= max_turn_ms {
        return None;
    }
    let remaining = max_turn_ms - elapsed;
    if remaining < chunk_gap_ms {
        Some(remaining)
    } else {
        Some(chunk_gap_ms)
    }
}

/// Whether arrival times never decrease along the timeline.
pub open spec fn timeline_ok(arrivals: Seq<TimedChunk>) -> bool {
    forall|i: int, j: int|
        0 <= i <= j < arrivals.len() ==> (#[trigger] arrivals[i]).at_ms <= (
        #[trigger] arrivals[j]).at_ms
}

/// How many chunks of the timeline one capture cycle consumes, counting
/// from position `i` with chunk `i - 1` the last one consumed: the
/// cycle stops at the turn cap, at a silence of one chunk gap, or at
/// the end of the timeline.
pub open spec fn consumed_from(arrivals: Seq<TimedChunk>, gap: int, max_turn: int, i: int) -> int
    decreases arrivals.len() - i,
{
    if i < 1 || i >= arrivals.len() {
        i
    } else {
        let t0 = arrivals[0].at_ms as int;
        let last = arrivals[i - 1].at_ms as int;
        match wait_budget_spec(t0, last, gap, max_turn) {
            None => i,
            Some(budget) => {
                if arrivals[i].at_ms - last < budget {
                    consumed_from(arrivals, gap, max_turn, i + 1)
                } else {
                    i
                }
            },
        }
    }
}

/// How many chunks one capture cycle consumes, the first chunk included.
pub open spec fn capture_count(arrivals: Seq<TimedChunk>, gap: int, max_turn: int) -> int {
    consumed_from(arrivals, gap, max_turn, 1)
}

/// The chunks of a timeline, without their arrival times.
pub open spec fn chunks_of(arrivals: Seq<TimedChunk>) -> Seq<AudioChunk> {
    arrivals.map_values(|t: TimedChunk| t.chunk)
}

/// The views of the chunks a capture over `arrivals` consumes.
pub open spec fn consumed_views(arrivals: Seq<TimedChunk>, gap: int, max_turn: int) -> Seq<
    (Seq<char>, Seq<i16>),
> {
    chunk_views(chunks_of(arrivals.subrange(0, capture_count(arrivals, gap, max_turn))))
}

/// Induction step: chunks consumed from position `i` on arrive within
/// the turn cap, provided the ones before did.
proof fn lemma_bounded_by_max_turn_from(
    arrivals: Seq<TimedChunk>,
    gap: int,
    max_turn: int,
    i: int,
)
    requires
        timeline_ok(arrivals),
        0 <= gap <= u64::MAX,
        0 <= max_turn <= u64::MAX,
        1 <= i <= arrivals.len(),
        forall|k: int|
            1 <= k < i ==> (#[trigger] arrivals[k]).at_ms - arrivals[0].at_ms < max_turn,
    ensures
        forall|k: int|
            1 <= k < consumed_from(arrivals, gap, max_turn, i) ==> (#[trigger] arrivals[k]).at_ms
                - arrivals[0].at_ms < max_turn,
    decreases arrivals.len() - i,
{
    if i < arrivals.len() {
        let t0 = arrivals[0].at_ms as int;
        let last = arrivals[i - 1].at_ms as int;
        match wait_budget_spec(t0, last, gap, max_turn) {
            None => {},
            Some(budget) => {
                if arrivals[i].at_ms - last < budget {
                    assert(arrivals[i].at_ms - t0 < max_turn);
                    lemma_bounded_by_max_turn_from(arrivals, gap, max_turn, i + 1);
                }
            },
        }
    }
}

/// Induction step for the dense-timeline law, scanning from `i`.
proof fn lemma_dense_timeline_from(
    arrivals: Seq<TimedChunk>,
    gap: int,
    max_turn: int,
    i: int,
)
    requires
        timeline_ok(arrivals),
        0 <= gap <= u64::MAX,
        0 <= max_turn <= u64::MAX,
        1 <= i <= arrivals.len(),
        forall|k: int|
            1 <= k < arrivals.len() ==> (#[trigger] arrivals[k]).at_ms - arrivals[k - 1].at_ms
                < gap,
        forall|k: int|
            0 <= k < arrivals.len() ==> (#[trigger] arrivals[k]).at_ms - arrivals[0].at_ms
                < max_turn,
    ensures
        consumed_from(arrivals, gap, max_turn, i) == arrivals.len(),
    decreases arrivals.len() - i,
{
    if i < arrivals.len() {
        let t0 = arrivals[0].at_ms as int;
        let last = arrivals[i - 1].at_ms as int;
        assert(last - t0 < max_turn);
        match wait_budget_spec(t0, last, gap, max_turn) {
            None => {
                assert(false);
            },
            Some(budget) => {
                assert(arrivals[i].at_ms - arrivals[i - 1].at_ms < gap);
                assert(arrivals[i].at_ms - t0 < max_turn);
                assert(arrivals[i].at_ms - last < budget);
                lemma_dense_timeline_from(arrivals, gap, max_turn, i + 1);
            },
        }
    }
}

/// Every chunk a capture consumes beyond the first arrives strictly
/// within the turn cap of the first chunk: however long the input keeps
/// coming, the capture stops at the cap.
pub proof fn lemma_capture_bounded_by_max_turn(arrivals: Seq<TimedChunk>, gap: int, max_turn: int)
    requires
        timeline_ok(arrivals),
        0 <= gap <= u64::MAX,
        0 <= max_turn <= u64::MAX,
        arrivals.len() >= 1,
    ensures
        forall|k: int|
            1 <= k < capture_count(arrivals, gap, max_turn) ==> (#[trigger] arrivals[k]).at_ms
                - arrivals[0].at_ms < max_turn,
{
    lemma_bounded_by_max_turn_from(arrivals, gap, max_turn, 1);
}

/// A capture whose chunks all arrive less than one chunk gap apart, and
/// all strictly within the turn cap of the first, consumes the whole
/// timeline: only a silence gap or the turn cap ends the turn.
pub proof fn lemma_capture_keeps_dense_timeline(arrivals: Seq<TimedChunk>, gap: int, max_turn: int)
    requires
        timeline_ok(arrivals),
        0 <= gap <= u64::MAX,
        0 <= max_turn <= u64::MAX,
        arrivals.len() >= 1,
        forall|k: int|
            1 <= k < arrivals.len() ==> (#[trigger] arrivals[k]).at_ms - arrivals[k - 1].at_ms
                < gap,
        forall|k: int|
            0 <= k < arrivals.len() ==> (#[trigger] arrivals[k]).at_ms - arrivals[0].at_ms
                < max_turn,
    ensures
        capture_count(arrivals, gap, max_turn) == arrivals.len(),
{
    lemma_dense_timeline_from(arrivals, gap, max_turn, 1);
}

/// Runs one capture cycle over a recorded timeline of chunk arrivals,
/// with times in milliseconds from the start of listening. Fails with
/// `CaptureTimeout` when no chunk arrives within the listen window;
/// otherwise the turn clock starts at the first arrival, and chunks are
/// consumed until the turn cap, a silence of one chunk gap, or the end
/// of the timeline, exactly as `capture_count` says.
pub fn capture_turn(
    arrivals: &Vec<TimedChunk>,
    listen_window_ms: u64,
    chunk_gap_ms: u64,
    max_turn_ms: u64,
) -> (r: Result<CapturedTurn, VoiceError>)
    requires
        timeline_ok(arrivals@),
    ensures
        r is Err && r->Err_0 == VoiceError::CaptureTimeout <==> arrivals@.len() == 0
            || arrivals@[0].at_ms >= listen_window_ms,
        arrivals@.len() > 0 && arrivals@[0].at_ms < listen_window_ms ==> {
            let views = consumed_views(arrivals@, chunk_gap_ms as int, max_turn_ms as int);
            &&& (r is Err <==> concat_samples(views).len() == 0)
            &&& (r is Err ==> r->Err_0 == VoiceError::EmptyTurn)
            &&& (r is Ok ==> (r->Ok_0).pcm_samples@ == concat_samples(views))
            &&& (r is Ok ==> speakers_sorted((r->Ok_0).speakers@))
            &&& (r is Ok ==> forall|s: Seq<char>|
                speaker_listed((r->Ok_0).speakers@, s) <==> has_label(views, s))
        },
{
    if arrivals.len() == 0 {
        return Err(VoiceError::CaptureTimeout);
    }
    let t0 = arrivals[0].at_ms;
    if t0 >= listen_window_ms {
        return Err(VoiceError::CaptureTimeout);
    }
    let ghost gap = chunk_gap_ms as int;
    let ghost max_turn = max_turn_ms as int;
    let mut n: usize = 1;
    while n < arrivals.len()
        invariant_except_break
            timeline_ok(arrivals@),
            1 <= n <= arrivals@.len(),
            t0 == arrivals@[0].at_ms,
            gap == chunk_gap_ms as int,
            max_turn == max_turn_ms as int,
            capture_count(arrivals@, gap, max_turn) == consumed_from(
                arrivals@,
                gap,
                max_turn,
                n as int,
            ),
        ensures
            1 <= n <= arrivals@.len(),
            capture_count(arrivals@, gap, max_turn) == n,
        decreases arrivals@.len() - n,
    {
        let last = arrivals[n - 1].at_ms;
        assert(t0 <= last && last <= arrivals@[n as int].at_ms);
        let ghost spec_budget = wait_budget_spec(t0 as int, last as int, gap, max_turn);
        match next_wait_budget(t0, last, chunk_gap_ms, max_turn_ms) {
            None => {
                assert(consumed_from(arrivals@, gap, max_turn, n as int) == n);
                break ;
            },
            Some(budget) => {
                if arrivals[n].at_ms - last < budget {
                    assert(consumed_from(arrivals@, gap, max_turn, n as int) == consumed_from(
                        arrivals@,
                        gap,
                        max_turn,
                        n + 1,
                    ));
                    n = n + 1;
                } else {
                    assert(consumed_from(arrivals@, gap, max_turn, n as int) == n);
                    break ;
                }
            },
        }
    }
    let mut consumed: Vec<AudioChunk> = Vec::new();
    let mut i: usize = 0;
    while i < n
        invariant
            i <= n <= arrivals@.len(),
            consumed@.len() == i,
            forall|k: int|
                0 <= k < i ==> (#[trigger] consumed@[k]).speaker_label@
                    == arrivals@[k].chunk.speaker_label@ && consumed@[k].pcm_samples@
                    == arrivals@[k].chunk.pcm_samples@,
        decreases n - i,
    {
        let source = &arrivals[i].chunk;
        let mut samples: Vec<i16> = Vec::new();
        let mut j: usize = 0;
        while j < source.pcm_samples.len()
            invariant
                j <= source.pcm_samples@.len(),
                source == arrivals@[i as int].chunk,
                i < arrivals@.len(),
                samples@ == source.pcm_samples@.subrange(0, j as int),
            decreases source.pcm_samples@.len() - j,
        {
            samples.push(source.pcm_samples[j]);
            assert(samples@ =~= source.pcm_samples@.subrange(0, j + 1));
            j = j + 1;
        }
        assert(samples@ =~= source.pcm_samples@);
        consumed.push(
            AudioChunk { speaker_label: source.speaker_label.clone(), pcm_samples: samples },
        );
        i = i + 1;
    }
    proof {
        assert(chunk_views(consumed@) =~= consumed_views(arrivals@, gap, max_turn)) by {
            let taken = arrivals@.subrange(0, n as int);
            assert(chunks_of(taken).len() == n);
            assert(forall|k: int| 0 <= k < n ==> chunks_of(taken)[k] == arrivals@[k].chunk);
        }
    }
    let outcome = assemble_turn(&consumed);
    proof {
        if outcome is Err {
            assert(outcome->Err_0 == VoiceError::EmptyTurn);
        }
    }
    outcome
}

/// Builds the captured turn from the chunks one capture cycle consumed:
/// the samples concatenated in arrival order and the speaker labels
/// sorted for determinism. Fails with `EmptyTurn` when the chunks carry
/// no samples at all.
pub fn assemble_turn(chunks: &Vec<AudioChunk>) -> (r: Result<CapturedTurn, VoiceError>)
    ensures
        r is Err <==> concat_samples(chunk_views(chunks@)).len() == 0,
        r is Err ==> r->Err_0 == VoiceError::EmptyTurn,
        r is Ok ==> (r->Ok_0).pcm_samples@ == concat_samples(chunk_views(chunks@)),
        r is Ok ==> speakers_sorted((r->Ok_0).speakers@),
        r is Ok ==> forall|s: Seq<char>|
            speaker_listed((r->Ok_0).speakers@, s) <==> has_label(chunk_views(chunks@), s),
{
    let ghost views = chunk_views(chunks@);
    let mut samples: Vec<i16> = Vec::new();
    let mut speakers: Vec<String> = Vec::new();
    let mut i: usize = 0;
    assert(views.subrange(0, 0) =~= Seq::<(Seq<char>, Seq<i16>)>::empty());
    while i < chunks.len()
        invariant
            i <= chunks@.len(),
            views == chunk_views(chunks@),
            views.len() == chunks@.len(),
            samples@ == concat_samples(views.subrange(0, i as int)),
            speakers_sorted(speakers@),
            forall|s: Seq<char>|
                speaker_listed(speakers@, s) <==> has_label(views.subrange(0, i as int), s),
        decreases chunks@.len() - i,
    {
        assert(views[i as int] == chunk_view(chunks@[i as int]));
        let chunk = &chunks[i];
        let mut j: usize = 0;
        while j < chunk.pcm_samples.len()
            invariant
                j <= chunk.pcm_samples@.len(),
                chunk == chunks@[i as int],
                i < chunks@.len(),
                views == chunk_views(chunks@),
                samples@ == concat_samples(views.subrange(0, i as int))
                    + chunk.pcm_samples@.subrange(0, j as int),
            decreases chunk.pcm_samples@.len() - j,
        {
            samples.push(chunk.pcm_samples[j]);
            assert(samples@ =~= concat_samples(views.subrange(0, i as int))
                + chunk.pcm_samples@.subrange(0, j + 1));
            j = j + 1;
        }
        assert(chunk.pcm_samples@.subrange(0, chunk.pcm_samples@.len() as int)
            =~= chunk.pcm_samples@);
        insert_speaker(&mut speakers, &chunk.speaker_label);
        proof {
            let shorter = views.subrange(0, i as int);
            let longer = views.subrange(0, i + 1);
            assert(longer.drop_last() =~= shorter);
            assert(longer.last() == views[i as int]);
            assert(samples@ =~= concat_samples(longer));
            assert forall|s: Seq<char>|
                speaker_listed(speakers@, s) <==> has_label(longer, s) by {
                if speaker_listed(speakers@, s) {
                    if has_label(shorter, s) {
                        let k = choose|k: int| 0 <= k < shorter.len() && shorter[k].0 == s;
                        assert(longer[k].0 == s);
                    } else {
                        assert(s == chunks@[i as int].speaker_label@);
                        assert(longer[i as int].0 == s);
                    }
                }
                if has_label(longer, s) {
                    let k = choose|k: int| 0 <= k < longer.len() && longer[k].0 == s;
                    if k < i {
                        assert(shorter[k].0 == s);
                        assert(has_label(shorter, s));
                    } else {
                        assert(s == chunks@[i as int].speaker_label@);
                    }
                }
            }
        }
        i = i + 1;
    }
    assert(views.subrange(0, chunks@.len() as int) =~= views);
    if samples.len() == 0 {
        return Err(VoiceError::EmptyTurn);
    }
    Ok(CapturedTurn { speakers, pcm_samples: samples })
}

} // verus!
