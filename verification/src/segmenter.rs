//! Cutting a stream of voice-activity decisions into speech segments.
//!
//! Audio arrives as fixed-size frames, each tagged by the voice activity
//! detector as speech or silence. Speech frames open or extend a segment;
//! silence frames extend an open segment until enough of them have followed
//! in a row, at which point the segment is closed. A speech frame that brings
//! a segment to the maximum length closes it at once; silent frames are not
//! held against the maximum, so the silent frames that end a segment may take
//! it past that length. Closed segments shorter than the minimum
//! length are dropped. The frames themselves are opaque to this module: it
//! keeps them in order and hands them back, and decides on sample counts.
use vstd::prelude::*;

verus! {

/// Segments shorter than this many samples (0.5 s at 16 kHz) are dropped.
pub const MIN_SPEECH_SAMPLES: usize = 8_000;

/// A speech frame that brings a segment to this many samples (25 s at 16 kHz)
/// closes it.
pub const MAX_SPEECH_SAMPLES: usize = 400_000;

/// Length of one detector frame in milliseconds (512 samples at 16 kHz).
pub const FRAME_MS: u64 = 32;

/// The fewest silent frames that close a segment.
pub const MIN_SILENCE_FRAMES: u64 = 5;

/// The number of consecutive silent frames that closes a segment, for a
/// configured silence duration in milliseconds: one frame per 32 ms, at least
/// five, taken as a `u32` (wrapping, as the cast does).
pub open spec fn silence_frames_for(silence_ms: u64) -> u32 {
    let q = silence_ms / FRAME_MS;
    (if q > MIN_SILENCE_FRAMES { q } else { MIN_SILENCE_FRAMES }) as u32
}

/// The number of consecutive silent frames that closes a segment.
pub fn silence_frames_needed(silence_ms: u64) -> (r: u32)
    ensures
        r == silence_frames_for(silence_ms),
{
    let q = silence_ms / FRAME_MS;
    let m: u64 = if q > MIN_SILENCE_FRAMES { q } else { MIN_SILENCE_FRAMES };
    m as u32
}

/// The closing run counts the 32 ms frames that fit in the configured
/// silence, and is at least five: for 600 ms it is 18 frames (576 ms).
pub proof fn lemma_silence_frames_for(silence_ms: u64)
    ensures
        silence_ms < 160 ==> silence_frames_for(silence_ms) == 5,
        160 <= silence_ms && silence_ms / 32 <= u32::MAX ==> silence_frames_for(silence_ms) * 32
            <= silence_ms < silence_frames_for(silence_ms) * 32 + 32,
{
}

/// The abstract state of a segmenter.
pub struct SegmenterState<T> {
    /// Frames of the open segment, oldest first.
    pub frames: Seq<T>,
    /// Number of samples in those frames.
    pub buffered: nat,
    /// Silent frames seen in a row since the last speech frame.
    pub silence: nat,
    /// Silent frames in a row that close a segment.
    pub needed: nat,
}

/// A speech segmenter over frames of type `T`.
pub struct SpeechSegmenter<T> {
    frames: Vec<T>,
    buffered: usize,
    silence_frames: u32,
    silence_frames_needed: u32,
}

impl<T> View for SpeechSegmenter<T> {
    type V = SegmenterState<T>;

    closed spec fn view(&self) -> SegmenterState<T> {
        SegmenterState {
            frames: self.frames@,
            buffered: self.buffered as nat,
            silence: self.silence_frames as nat,
            needed: self.silence_frames_needed as nat,
        }
    }
}

/// The state with no open segment.
pub open spec fn idle_state<T>(needed: nat) -> SegmenterState<T> {
    SegmenterState { frames: Seq::empty(), buffered: 0, silence: 0, needed }
}

impl<T> SegmenterState<T> {
    /// The counters are consistent: a run of silence is shorter than the
    /// closing run (or empty), silence is only counted inside a segment, and
    /// samples are only counted for frames that are held.
    pub open spec fn well_formed(self) -> bool {
        &&& self.silence == 0 || self.silence < self.needed
        &&& self.silence > 0 ==> self.buffered > 0
        &&& self.frames.len() == 0 ==> self.buffered == 0
        &&& self.needed <= u32::MAX
        &&& self.buffered <= usize::MAX
    }

    /// No segment is open.
    pub open spec fn is_idle(self) -> bool {
        self.frames.len() == 0 && self.buffered == 0 && self.silence == 0
    }
}

/// One step of the segmenter: the state after a frame of `len` samples that
/// the detector tagged `is_speech`, and the segment that the frame closed and
/// that is long enough to keep, if any.
pub open spec fn step<T>(s: SegmenterState<T>, is_speech: bool, frame: T, len: nat) -> (
    SegmenterState<T>,
    Option<Seq<T>>,
) {
    let frames = s.frames.push(frame);
    let buffered = s.buffered + len;
    if is_speech {
        if buffered >= MAX_SPEECH_SAMPLES {
            (idle_state(s.needed), Some(frames))
        } else {
            (SegmenterState { frames, buffered, silence: 0, needed: s.needed }, None)
        }
    } else if s.buffered > 0 {
        let silence = s.silence + 1;
        if silence >= s.needed {
            (idle_state(s.needed), if buffered >= MIN_SPEECH_SAMPLES { Some(frames) } else { None })
        } else {
            (SegmenterState { frames, buffered, silence, needed: s.needed }, None)
        }
    } else {
        (s, None)
    }
}

/// What is left when the stream ends: the open segment if it is long enough.
pub open spec fn remainder<T>(s: SegmenterState<T>) -> Option<Seq<T>> {
    if s.buffered >= MIN_SPEECH_SAMPLES {
        Some(s.frames)
    } else {
        None
    }
}

/// The state after feeding `events` (detector flag, frame, sample count) in order.
pub open spec fn run<T>(s: SegmenterState<T>, events: Seq<(bool, T, nat)>) -> SegmenterState<T>
    decreases events.len(),
{
    if events.len() == 0 {
        s
    } else {
        let e = events[0];
        run(step(s, e.0, e.1, e.2).0, events.drop_first())
    }
}

/// The segments kept while feeding `events` in order, oldest first.
pub open spec fn kept_segments<T>(s: SegmenterState<T>, events: Seq<(bool, T, nat)>) -> Seq<Seq<T>>
    decreases events.len(),
{
    if events.len() == 0 {
        Seq::empty()
    } else {
        let e = events[0];
        let (next, out) = step(s, e.0, e.1, e.2);
        let rest = kept_segments(next, events.drop_first());
        match out {
            Some(seg) => seq![seg] + rest,
            None => rest,
        }
    }
}

/// The segment that one step closes, whether or not it is long enough to keep.
pub open spec fn closed_by<T>(s: SegmenterState<T>, is_speech: bool, frame: T, len: nat) -> Option<
    Seq<T>,
> {
    let frames = s.frames.push(frame);
    if is_speech {
        if s.buffered + len >= MAX_SPEECH_SAMPLES {
            Some(frames)
        } else {
            None
        }
    } else if s.buffered > 0 && s.silence + 1 >= s.needed {
        Some(frames)
    } else {
        None
    }
}

/// A frame is taken into a segment unless it is silence while no segment is open.
pub open spec fn takes<T>(s: SegmenterState<T>, is_speech: bool) -> bool {
    is_speech || s.buffered > 0
}

/// The frames of `events` that the segmenter takes, in order.
pub open spec fn taken_frames<T>(s: SegmenterState<T>, events: Seq<(bool, T, nat)>) -> Seq<T>
    decreases events.len(),
{
    if events.len() == 0 {
        Seq::empty()
    } else {
        let e = events[0];
        let rest = taken_frames(step(s, e.0, e.1, e.2).0, events.drop_first());
        if takes(s, e.0) {
            seq![e.1] + rest
        } else {
            rest
        }
    }
}

/// The segments closed while feeding `events`, kept or dropped, oldest first.
pub open spec fn closed_segments<T>(s: SegmenterState<T>, events: Seq<(bool, T, nat)>) -> Seq<
    Seq<T>,
>
    decreases events.len(),
{
    if events.len() == 0 {
        Seq::empty()
    } else {
        let e = events[0];
        let rest = closed_segments(step(s, e.0, e.1, e.2).0, events.drop_first());
        match closed_by(s, e.0, e.1, e.2) {
            Some(seg) => seq![seg] + rest,
            None => rest,
        }
    }
}

/// Nothing is lost or reordered: the frames that were open, followed by the
/// frames taken from `events`, are the closed segments one after the other,
/// followed by the frames still open.
pub proof fn lemma_frames_conserved<T>(s: SegmenterState<T>, events: Seq<(bool, T, nat)>)
    ensures
        s.frames + taken_frames(s, events) == closed_segments(s, events).flatten() + run(
            s,
            events,
        ).frames,
    decreases events.len(),
{
    if events.len() == 0 {
        assert(closed_segments(s, events) =~= Seq::<Seq<T>>::empty());
        assert(s.frames + Seq::<T>::empty() =~= Seq::<Seq<T>>::empty().flatten() + s.frames);
    } else {
        let e = events[0];
        let n = step(s, e.0, e.1, e.2).0;
        let rest = events.drop_first();
        lemma_frames_conserved(n, rest);
        let tail = closed_segments(n, rest);
        match closed_by(s, e.0, e.1, e.2) {
            Some(c) => {
                let all = seq![c] + tail;
                assert(all.first() == c);
                assert(all.drop_first() =~= tail);
                assert(n.frames =~= Seq::<T>::empty());
                assert(s.frames + (seq![e.1] + taken_frames(n, rest)) =~= c + (n.frames
                    + taken_frames(n, rest)));
                assert(c + (tail.flatten() + run(n, rest).frames) =~= (c + tail.flatten()) + run(
                    n,
                    rest,
                ).frames);
            },
            None => {
                if takes(s, e.0) {
                    assert(n.frames == s.frames.push(e.1));
                    assert(s.frames + (seq![e.1] + taken_frames(n, rest)) =~= n.frames
                        + taken_frames(n, rest));
                } else {
                    assert(n == s);
                }
            },
        }
    }
}

/// What one frame does, case by case, in terms of the counters: a speech
/// frame extends the open segment and resets the silence count, and closes
/// and keeps the segment when it brings it to the maximum length (400,000
/// samples, 25 s at 16 kHz); a silent frame with no open segment changes
/// nothing; a silent frame in an open segment extends it and counts one more silent frame, and when that count
/// reaches the closing run the segment (speech and silence together) is
/// closed, and kept exactly when it holds at least the minimum number of
/// samples (8,000, 0.5 s at 16 kHz), otherwise dropped.
pub proof fn lemma_step_cases<T>(s: SegmenterState<T>, is_speech: bool, frame: T, len: nat)
    ensures
        ({
            let (next, out) = step(s, is_speech, frame, len);
            let total = s.buffered + len;
            &&& is_speech && total >= 400_000 ==> next.is_idle() && next.needed
                == s.needed && out == Some(s.frames.push(frame))
            &&& is_speech && total < 400_000 ==> out is None && next.frames
                == s.frames.push(frame) && next.buffered == total && next.silence == 0
                && next.needed == s.needed
            &&& !is_speech && s.buffered == 0 ==> next == s && out is None
            &&& !is_speech && s.buffered > 0 && s.silence + 1 < s.needed ==> out is None
                && next.frames == s.frames.push(frame) && next.buffered == total && next.silence
                == s.silence + 1 && next.needed == s.needed
            &&& !is_speech && s.buffered > 0 && s.silence + 1 >= s.needed ==> next.is_idle()
                && next.needed == s.needed && (out is Some <==> total >= 8_000)
                && (out is Some ==> out == Some(s.frames.push(frame)))
        }),
{
}

/// The silent frame that closes a segment keeps it exactly when the whole
/// segment, speech and the silent frames that ended it, holds at least the
/// minimum number of samples: for a word of 10 speech frames followed by the
/// 18 silent frames that close it, 28 * 512 = 14,336 >= 8,000 samples are kept.
pub proof fn lemma_silence_close_keeps_long_segments<T>(s: SegmenterState<T>, frame: T, len: nat)
    requires
        s.buffered > 0,
        s.silence + 1 >= s.needed,
    ensures
        step(s, false, frame, len).1 == (if s.buffered + len >= 8_000 {
            Some(s.frames.push(frame))
        } else {
            None
        }),
        step(s, false, frame, len).0.frames.len() == 0,
{
}

/// Every step keeps the counters consistent.
pub proof fn lemma_step_well_formed<T>(s: SegmenterState<T>, is_speech: bool, frame: T, len: nat)
    requires
        s.well_formed(),
        s.buffered + len <= usize::MAX,
    ensures
        step(s, is_speech, frame, len).0.well_formed(),
{
}

/// A kept segment is the open segment followed by the frame that closed it,
/// it is the segment that the step closed, and it holds at least the minimum
/// number of samples.
pub proof fn lemma_kept_segment<T>(s: SegmenterState<T>, is_speech: bool, frame: T, len: nat)
    requires
        step(s, is_speech, frame, len).1 is Some,
    ensures
        step(s, is_speech, frame, len).1 == Some(s.frames.push(frame)),
        closed_by(s, is_speech, frame, len) == step(s, is_speech, frame, len).1,
        s.buffered + len >= MIN_SPEECH_SAMPLES,
        step(s, is_speech, frame, len).0.is_idle(),
{
}

/// A speech frame that brings the open segment to the maximum length closes
/// it and keeps it.
pub proof fn lemma_max_length_closes<T>(s: SegmenterState<T>, frame: T, len: nat)
    requires
        s.buffered + len >= MAX_SPEECH_SAMPLES,
    ensures
        step(s, true, frame, len) == (idle_state::<T>(s.needed), Some(s.frames.push(frame))),
{
}

/// Every segment opens with a speech frame: from a state with no open frames,
/// a step that opens a segment had a speech frame.
pub proof fn lemma_segment_opens_with_speech<T>(
    s: SegmenterState<T>,
    is_speech: bool,
    frame: T,
    len: nat,
)
    requires
        s.well_formed(),
        s.frames.len() == 0,
        step(s, is_speech, frame, len).0.frames.len() > 0,
    ensures
        is_speech,
{
}

/// Silence alone never opens a segment: a stream of silent frames fed to an
/// idle segmenter keeps nothing and leaves it idle.
pub proof fn lemma_silence_keeps_idle<T>(s: SegmenterState<T>, events: Seq<(bool, T, nat)>)
    requires
        s.is_idle(),
        forall|i: int| 0 <= i < events.len() ==> !(#[trigger] events[i]).0,
    ensures
        run(s, events) == s,
        kept_segments(s, events) == Seq::<Seq<T>>::empty(),
    decreases events.len(),
{
    if events.len() > 0 {
        let e = events[0];
        assert(!events[0].0);
        assert(step(s, e.0, e.1, e.2) == (s, None::<Seq<T>>));
        assert forall|i: int| 0 <= i < events.drop_first().len() implies !(
        #[trigger] events.drop_first()[i]).0 by {
            assert(events.drop_first()[i] == events[i + 1]);
        }
        lemma_silence_keeps_idle(s, events.drop_first());
    }
}

/// An open segment is closed by as many silent frames in a row as the
/// configured silence duration asks for: after them the segmenter is idle.
pub proof fn lemma_silence_closes<T>(s: SegmenterState<T>, events: Seq<(bool, T, nat)>)
    requires
        s.silence < s.needed,
        s.buffered > 0,
        events.len() == s.needed - s.silence,
        forall|i: int| 0 <= i < events.len() ==> !(#[trigger] events[i]).0,
    ensures
        run(s, events).is_idle(),
        run(s, events).needed == s.needed,
    decreases events.len(),
{
    let e = events[0];
    assert(!events[0].0);
    let next = step(s, e.0, e.1, e.2).0;
    if events.len() > 1 {
        assert(next.buffered > 0);
        assert forall|i: int| 0 <= i < events.drop_first().len() implies !(
        #[trigger] events.drop_first()[i]).0 by {
            assert(events.drop_first()[i] == events[i + 1]);
        }
        lemma_silence_closes(next, events.drop_first());
    } else {
        assert(events.drop_first().len() == 0);
        assert(run(next, events.drop_first()) == next);
    }
    assert(run(s, events) == run(next, events.drop_first()));
}

/// The view of an optional vector of frames.
pub open spec fn frames_view<T>(o: Option<Vec<T>>) -> Option<Seq<T>> {
    match o {
        Some(v) => Some(v@),
        None => None,
    }
}

impl<T> SpeechSegmenter<T> {
    /// A segmenter with no open segment, closing segments after the given
    /// duration of silence in milliseconds.
    pub fn new(silence_duration_ms: u64) -> (r: Self)
        ensures
            r@ == idle_state::<T>(silence_frames_for(silence_duration_ms) as nat),
            r@.well_formed(),
    {
        SpeechSegmenter {
            frames: Vec::new(),
            buffered: 0,
            silence_frames: 0,
            silence_frames_needed: silence_frames_needed(silence_duration_ms),
        }
    }

    /// Samples in the open segment.
    pub fn buffered(&self) -> (r: usize)
        ensures
            r == self@.buffered,
    {
        self.buffered
    }

    /// The counters of every segmenter are consistent.
    #[verifier::type_invariant]
    closed spec fn counters_consistent(self) -> bool {
        self@.well_formed()
    }

    /// Takes one frame of `frame_len` samples; returns the segment that it
    /// closed, oldest frame first, when that segment is long enough to keep.
    pub fn push_frame(&mut self, is_speech: bool, frame: T, frame_len: usize) -> (out: Option<
        Vec<T>,
    >)
        requires
            old(self)@.buffered + frame_len <= usize::MAX,
        ensures
            final(self)@.well_formed(),
            (final(self)@, frames_view(out)) == step(
                old(self)@,
                is_speech,
                frame,
                frame_len as nat,
            ),
    {
        proof {
            use_type_invariant(&*self);
        }
        let needed = self.silence_frames_needed;
        let mut cur = SpeechSegmenter {
            frames: Vec::new(),
            buffered: 0,
            silence_frames: 0,
            silence_frames_needed: needed,
        };
        core::mem::swap(&mut cur, self);
        let SpeechSegmenter { frames: mut frames, buffered, silence_frames, silence_frames_needed: _ } =
            cur;
        let out = if is_speech {
            frames.push(frame);
            let total = buffered + frame_len;
            if total >= MAX_SPEECH_SAMPLES {
                Some(frames)
            } else {
                *self = SpeechSegmenter {
                    frames,
                    buffered: total,
                    silence_frames: 0,
                    silence_frames_needed: needed,
                };
                None
            }
        } else if buffered > 0 {
            frames.push(frame);
            let total = buffered + frame_len;
            let silence = silence_frames + 1;
            if silence >= needed {
                if total >= MIN_SPEECH_SAMPLES {
                    Some(frames)
                } else {
                    None
                }
            } else {
                *self = SpeechSegmenter {
                    frames,
                    buffered: total,
                    silence_frames: silence,
                    silence_frames_needed: needed,
                };
                None
            }
        } else {
            *self = SpeechSegmenter { frames, buffered, silence_frames, silence_frames_needed: needed };
            None
        };
        proof {
            use_type_invariant(&*self);
        }
        out
    }

    /// Ends the stream: the open segment, if it is long enough to keep.
    pub fn finish(self) -> (out: Option<Vec<T>>)
        ensures
            frames_view(out) == remainder(self@),
    {
        if self.buffered >= MIN_SPEECH_SAMPLES {
            Some(self.frames)
        } else {
            None
        }
    }
}

} // verus!
