//! Smoothing over a raw per-frame speech/noise decision.
//!
//! Three mitigations turn a twitchy per-frame decision into segments:
//! an onset debounce (N consecutive speech frames before a segment opens),
//! a pre-roll count (how many frames before the onset the caller should
//! retroactively include), and a hangover (frames of silence tolerated
//! before a segment closes).
use vstd::prelude::*;

verus! {

/// How long to hold a segment open across silence before declaring it over.
#[derive(Debug, Clone, Copy, PartialEq, Eq, Structural)]
pub enum HangoverPolicy {
    /// Batch/offline use: a shorter tail.
    Offline,
    /// Streaming/interactive use: a longer tail.
    Streaming,
}

/// Consecutive speech frames required before a segment opens.
pub const ONSET_FRAMES: usize = 2;
/// Silence tail for the offline policy, in milliseconds.
pub const OFFLINE_HANGOVER_MS: usize = 450;
/// Silence tail for the streaming policy, in milliseconds.
pub const STREAMING_HANGOVER_MS: usize = 1650;
/// Audio retained before an onset, in milliseconds.
pub const PREROLL_MS: usize = 450;

/// Frames needed to cover `ms`: the ceiling of `ms / frame_ms`, or zero
/// for a zero frame length.
pub open spec fn spec_frames_for_ms(ms: int, frame_ms: int) -> int {
    if frame_ms == 0 {
        0
    } else {
        (ms + frame_ms - 1) / frame_ms
    }
}

/// Frames needed to cover `ms`, rounded up so a tail is never short.
pub fn frames_for_ms(ms: usize, frame_ms: usize) -> (r: usize)
    ensures
        r == spec_frames_for_ms(ms as int, frame_ms as int),
        frame_ms > 0 ==> r * frame_ms >= ms && (r == 0 || (r - 1) * frame_ms < ms),
{
    if frame_ms == 0 {
        return 0;
    }
    let q = ms / frame_ms;
    proof {
        if ms % frame_ms != 0 {
            vstd::arithmetic::div_mod::lemma_fundamental_div_mod(ms as int, frame_ms as int);
            assert(q < usize::MAX) by (nonlinear_arith)
                requires (frame_ms as int) * (q as int) + (ms as int) % (frame_ms as int) == ms as int,
                    0 < (ms as int) % (frame_ms as int) < frame_ms as int, ms <= usize::MAX;
        }
    }
    let r = if ms % frame_ms == 0 { q } else { q + 1 };
    proof {
        let m = ms as int;
        let f = frame_ms as int;
        vstd::arithmetic::div_mod::lemma_fundamental_div_mod(m, f);
        vstd::arithmetic::div_mod::lemma_fundamental_div_mod(m + f - 1, f);
        let qq = (m + f - 1) / f;
        let rr = (m + f - 1) % f;
        assert(f * (q as int) + m % f == m);
        assert(f * qq + rr == m + f - 1);
        assert(0 <= rr < f);
        if m % f == 0 {
            assert(f * qq + rr == f * (q as int) + f - 1);
            assert(qq == q as int) by (nonlinear_arith)
                requires f * qq + rr == f * (q as int) + f - 1, 0 <= rr < f, f > 0;
        } else {
            assert(f * qq + rr == f * (q as int) + f + m % f - 1);
            assert(qq == q as int + 1) by (nonlinear_arith)
                requires f * qq + rr == f * (q as int) + f + m % f - 1, 0 <= rr < f, 0 < m % f < f, f > 0;
        }
        assert(r * f >= m) by (nonlinear_arith)
            requires f * (q as int) + m % f == m, 0 <= m % f < f,
                (m % f == 0 ==> r == q), (m % f != 0 ==> r == q + 1);
        assert(r == 0 || (r - 1) * f < m) by (nonlinear_arith)
            requires f * (q as int) + m % f == m, 0 <= m % f < f, f > 0,
                (m % f == 0 ==> r == q), (m % f != 0 ==> r == q + 1);
    }
    r
}

impl HangoverPolicy {
    /// The tail of this policy in milliseconds.
    pub open spec fn spec_hangover_ms(self) -> usize {
        match self {
            HangoverPolicy::Offline => OFFLINE_HANGOVER_MS,
            HangoverPolicy::Streaming => STREAMING_HANGOVER_MS,
        }
    }

    /// The tail expressed in milliseconds.
    pub fn hangover_ms(self) -> (r: usize)
        ensures
            r == self.spec_hangover_ms(),
    {
        match self {
            HangoverPolicy::Offline => OFFLINE_HANGOVER_MS,
            HangoverPolicy::Streaming => STREAMING_HANGOVER_MS,
        }
    }

    /// Frames of silence tolerated before the segment is declared over, for an
    /// engine whose frames are `frame_ms` long.
    pub fn hangover_frames(self, frame_ms: usize) -> (r: usize)
        ensures
            r == spec_frames_for_ms(self.spec_hangover_ms() as int, frame_ms as int),
    {
        frames_for_ms(self.hangover_ms(), frame_ms)
    }
}

/// Tuning for [`SmoothedVad`].
#[derive(Debug, Clone, Copy)]
pub struct SmoothingConfig {
    /// Consecutive speech frames required to open a segment.
    pub onset_frames: usize,
    /// Frames of silence tolerated before closing a segment.
    pub hangover_frames: usize,
    /// Maximum frames retroactively included ahead of an onset.
    pub preroll_frames: usize,
}

impl SmoothingConfig {
    /// Build a config from a hangover policy for an engine whose frames are
    /// `frame_ms` long.
    pub fn for_policy(policy: HangoverPolicy, frame_ms: usize) -> (r: Self)
        ensures
            r.onset_frames == ONSET_FRAMES,
            r.hangover_frames == spec_frames_for_ms(policy.spec_hangover_ms() as int, frame_ms as int),
            r.preroll_frames == spec_frames_for_ms(PREROLL_MS as int, frame_ms as int),
    {
        SmoothingConfig {
            onset_frames: ONSET_FRAMES,
            hangover_frames: policy.hangover_frames(frame_ms),
            preroll_frames: frames_for_ms(PREROLL_MS, frame_ms),
        }
    }
}

/// A segment boundary crossed on a given frame.
#[derive(Debug, Clone, Copy, PartialEq, Eq, Structural)]
pub enum Transition {
    /// A speech segment opened on this frame.
    SpeechStart,
    /// The segment closed on this frame; this frame is not part of it.
    SpeechEnd,
}

/// What the caller should do with one frame.
#[derive(Debug, Clone, Copy, PartialEq, Eq, Structural)]
pub struct FrameDecision {
    /// Whether this frame belongs to a speech segment.
    pub active: bool,
    /// On a speech-start frame, how many immediately preceding frames the
    /// caller should retroactively include. Zero on every other frame.
    pub preroll_frames: usize,
    /// The boundary crossed on this frame, if any.
    pub transition: Option<Transition>,
}

/// Where the smoother is between segments.
#[derive(Debug, Clone, Copy, PartialEq, Eq, Structural)]
pub enum VadPhase {
    /// No segment open.
    Silence,
    /// Segment open, last frame was speech.
    Speech,
    /// Segment open, running on the hangover tail.
    Hangover,
}

/// Smooths a raw per-frame speech decision into segment boundaries.
pub struct SmoothedVad {
    config: SmoothingConfig,
    state: VadPhase,
    speech_run: usize,
    silence_run: usize,
    preroll_available: usize,
}

/// The abstract state of a smoother: its tuning, phase and counters.
pub struct VadModel {
    pub config: SmoothingConfig,
    pub phase: VadPhase,
    /// Consecutive speech frames seen while waiting to confirm an onset.
    pub speech_run: nat,
    /// Consecutive silence frames seen on the hangover tail.
    pub silence_run: nat,
    /// Non-active frames seen since the last segment, capped at the window.
    pub preroll_available: nat,
}

/// `min(a, b)` over integers.
pub open spec fn spec_min(a: int, b: int) -> int {
    if a <= b { a } else { b }
}

impl VadModel {
    /// The counters a reachable smoother can hold.
    pub open spec fn wf(self) -> bool {
        &&& (self.preroll_available <= self.config.preroll_frames || self.preroll_available == 1)
        &&& (self.phase == VadPhase::Silence ==> self.silence_run == 0 && (self.speech_run == 0
            || self.speech_run < self.config.onset_frames))
        &&& (self.phase != VadPhase::Silence ==> self.speech_run == 0 && self.preroll_available == 0
            && self.silence_run <= self.config.hangover_frames)
        &&& (self.phase == VadPhase::Speech ==> self.silence_run == 0)
    }

    /// Whether a segment is open.
    pub open spec fn is_active(self) -> bool {
        self.phase != VadPhase::Silence
    }

    /// The next state and the decision for one frame.
    pub open spec fn step(self, is_speech: bool) -> (VadModel, FrameDecision) {
        let c = self.config;
        if self.phase == VadPhase::Silence {
            if !is_speech {
                (VadModel {
                    speech_run: 0,
                    preroll_available: spec_min(self.preroll_available + 1int, c.preroll_frames as int) as nat,
                    ..self
                }, FrameDecision { active: false, preroll_frames: 0, transition: None })
            } else if self.speech_run + 1 < c.onset_frames {
                (VadModel {
                    speech_run: self.speech_run + 1,
                    preroll_available: spec_min(self.preroll_available + 1int, c.preroll_frames as int) as nat,
                    ..self
                }, FrameDecision { active: false, preroll_frames: 0, transition: None })
            } else {
                (VadModel {
                    phase: VadPhase::Speech,
                    speech_run: 0,
                    silence_run: 0,
                    preroll_available: 0,
                    ..self
                }, FrameDecision {
                    active: true,
                    preroll_frames: self.preroll_available as usize,
                    transition: Some(Transition::SpeechStart),
                })
            }
        } else if is_speech {
            (VadModel { phase: VadPhase::Speech, silence_run: 0, ..self },
             FrameDecision { active: true, preroll_frames: 0, transition: None })
        } else if self.silence_run + 1 <= c.hangover_frames {
            (VadModel { phase: VadPhase::Hangover, silence_run: self.silence_run + 1, ..self },
             FrameDecision { active: true, preroll_frames: 0, transition: None })
        } else {
            (VadModel {
                phase: VadPhase::Silence,
                speech_run: 0,
                silence_run: 0,
                preroll_available: 1,
                ..self
            }, FrameDecision { active: false, preroll_frames: 0, transition: Some(Transition::SpeechEnd) })
        }
    }

    /// Run a whole sequence of raw decisions, returning the final state.
    pub open spec fn run(self, frames: Seq<bool>) -> VadModel
        decreases frames.len(),
    {
        if frames.len() == 0 {
            self
        } else {
            self.step(frames[0]).0.run(frames.drop_first())
        }
    }
}


/// One frame keeps the smoother well formed, and whether the frame is part of
/// a segment is exactly whether a segment is open afterwards.
pub proof fn lemma_step_keeps_wf_and_activity(m: VadModel, is_speech: bool)
    requires
        m.wf(),
    ensures
        m.step(is_speech).0.wf(),
        m.step(is_speech).0.is_active() == m.step(is_speech).1.active,
        m.step(is_speech).0.config == m.config,
{
}

/// A speech-start is reported exactly when a segment opens on this frame, and
/// a speech-end exactly when one closes.
pub proof fn lemma_transitions_mark_boundaries(m: VadModel, is_speech: bool)
    requires
        m.wf(),
    ensures
        (m.step(is_speech).1.transition == Some(Transition::SpeechStart))
            <==> (!m.is_active() && m.step(is_speech).0.is_active()),
        (m.step(is_speech).1.transition == Some(Transition::SpeechEnd))
            <==> (m.is_active() && !m.step(is_speech).0.is_active()),
{
}

/// Pre-roll is handed back only on a speech-start frame, and never exceeds the
/// configured window (for a window of at least one frame).
pub proof fn lemma_preroll_only_on_onset_and_capped(m: VadModel, is_speech: bool)
    requires
        m.wf(),
    ensures
        m.step(is_speech).1.preroll_frames > 0 ==> m.step(is_speech).1.transition == Some(
            Transition::SpeechStart,
        ),
        m.config.preroll_frames > 0 ==> m.step(is_speech).1.preroll_frames <= m.config.preroll_frames,
{
}

/// Onset debounce: from silence with no pending speech, fewer than
/// `onset_frames` consecutive speech frames never open a segment.
pub proof fn lemma_debounce_withholds_short_runs(m: VadModel, frames: Seq<bool>)
    requires
        m.wf(),
        m.phase == VadPhase::Silence,
        m.speech_run + frames.len() < m.config.onset_frames,
        forall|i: int| 0 <= i < frames.len() ==> frames[i],
    ensures
        !m.run(frames).is_active(),
        m.run(frames).speech_run == m.speech_run + frames.len(),
        m.run(frames).config == m.config,
    decreases frames.len(),
{
    if frames.len() > 0 {
        let next = m.step(frames[0]).0;
        assert(next.wf());
        let rest = frames.drop_first();
        assert forall|i: int| 0 <= i < rest.len() implies rest[i] by {
            assert(frames[i + 1]);
        }
        lemma_debounce_withholds_short_runs(next, rest);
    }
}

/// Onset: from silence, `onset_frames` consecutive speech frames open a
/// segment on the last of them.
pub proof fn lemma_onset_opens_after_debounce(m: VadModel, frames: Seq<bool>)
    requires
        m.wf(),
        m.phase == VadPhase::Silence,
        m.speech_run == 0,
        m.config.onset_frames >= 1,
        frames.len() == m.config.onset_frames,
        forall|i: int| 0 <= i < frames.len() ==> frames[i],
    ensures
        m.run(frames).is_active(),
{
    let k = (frames.len() - 1) as int;
    let prefix = frames.subrange(0, k);
    assert forall|i: int| 0 <= i < prefix.len() implies prefix[i] by {
        assert(frames[i]);
    }
    lemma_debounce_withholds_short_runs(m, prefix);
    let mid = m.run(prefix);
    lemma_run_split(m, prefix, seq![true]);
    assert(prefix + seq![true] =~= frames);
    assert(mid.run(seq![true]) == mid.step(true).0.run(seq![true].drop_first()));
    assert(seq![true].drop_first() =~= Seq::<bool>::empty());
    let last = mid.step(true).0;
    assert(last.run(Seq::<bool>::empty()) == last);
    assert(mid.speech_run + 1 == m.config.onset_frames);
    assert(last.is_active());
    assert(m.run(frames) == m.run(prefix + seq![true]));
}

/// Running two sequences one after the other is running their concatenation.
pub proof fn lemma_run_split(m: VadModel, a: Seq<bool>, b: Seq<bool>)
    ensures
        m.run(a + b) == m.run(a).run(b),
    decreases a.len(),
{
    if a.len() > 0 {
        assert((a + b).drop_first() =~= a.drop_first() + b);
        assert((a + b)[0] == a[0]);
        lemma_run_split(m.step(a[0]).0, a.drop_first(), b);
    } else {
        assert(a + b =~= b);
    }
}

/// Hangover: once a segment is open on speech, up to `hangover_frames`
/// consecutive silent frames keep it open, and one more closes it.
pub proof fn lemma_hangover_holds_then_closes(m: VadModel, frames: Seq<bool>)
    requires
        m.wf(),
        m.is_active(),
        m.silence_run + frames.len() <= m.config.hangover_frames + 1,
        forall|i: int| 0 <= i < frames.len() ==> !frames[i],
    ensures
        m.silence_run + frames.len() <= m.config.hangover_frames ==> m.run(frames).is_active()
            && m.run(frames).silence_run == m.silence_run + frames.len(),
        m.silence_run + frames.len() == m.config.hangover_frames + 1 ==> !m.run(frames).is_active(),
    decreases frames.len(),
{
    if frames.len() > 0 {
        let next = m.step(frames[0]).0;
        let rest = frames.drop_first();
        assert forall|i: int| 0 <= i < rest.len() implies !rest[i] by {
            assert(!frames[i + 1]);
        }
        if m.silence_run + 1 <= m.config.hangover_frames {
            lemma_hangover_holds_then_closes(next, rest);
        } else {
            assert(rest.len() == 0);
            assert(m.run(frames) == next.run(rest));
        }
    }
}

/// The decisions a smoother in state `m` makes on `frames`, one per frame.
pub open spec fn decisions(m: VadModel, frames: Seq<bool>) -> Seq<FrameDecision>
    decreases frames.len(),
{
    if frames.len() == 0 {
        Seq::empty()
    } else {
        decisions(m, frames.drop_last()).push(m.run(frames.drop_last()).step(frames.last()).1)
    }
}

/// Some decision starts a segment that no later decision ends.
pub open spec fn segment_left_open(ds: Seq<FrameDecision>) -> bool {
    exists|i: int|
        0 <= i < ds.len() && #[trigger] ds[i].transition == Some(Transition::SpeechStart) && forall|j: int|
            i < j < ds.len() ==> #[trigger] ds[j].transition != Some(Transition::SpeechEnd)
}

/// How many of the latest decisions in a row kept the frame out of any
/// segment.
pub open spec fn trailing_inactive(ds: Seq<FrameDecision>) -> nat
    decreases ds.len(),
{
    if ds.len() == 0 || ds.last().active {
        0
    } else {
        trailing_inactive(ds.drop_last()) + 1
    }
}

/// Running one more frame is one more step.
proof fn lemma_run_push(m: VadModel, frames: Seq<bool>, b: bool)
    ensures
        m.run(frames.push(b)) == m.run(frames).step(b).0,
{
    lemma_run_split(m, frames, seq![b]);
    assert(frames + seq![b] =~= frames.push(b));
    let n = m.run(frames);
    assert(seq![b].drop_first() =~= Seq::<bool>::empty());
    assert(n.run(seq![b]) == n.step(b).0.run(Seq::<bool>::empty()));
}

/// A well-formed smoother stays well formed, with its tuning, over any run.
pub proof fn lemma_run_keeps_wf(m: VadModel, frames: Seq<bool>)
    requires
        m.wf(),
    ensures
        m.run(frames).wf(),
        m.run(frames).config == m.config,
    decreases frames.len(),
{
    if frames.len() > 0 {
        lemma_run_keeps_wf(m, frames.drop_last());
        lemma_run_push(m, frames.drop_last(), frames.last());
        assert(frames.drop_last().push(frames.last()) =~= frames);
        lemma_step_keeps_wf_and_activity(m.run(frames.drop_last()), frames.last());
    }
}

/// A smoother that starts with no segment open has one open after a run
/// exactly when some decision of the run started a segment that no later
/// decision ended.
pub proof fn lemma_active_iff_segment_left_open(m: VadModel, frames: Seq<bool>)
    requires
        m.wf(),
        !m.is_active(),
    ensures
        m.run(frames).is_active() == segment_left_open(decisions(m, frames)),
    decreases frames.len(),
{
    if frames.len() == 0 {
        assert(m.run(frames) == m);
    } else {
        let pre = frames.drop_last();
        let b = frames.last();
        lemma_active_iff_segment_left_open(m, pre);
        lemma_run_keeps_wf(m, pre);
        lemma_run_push(m, pre, b);
        assert(pre.push(b) =~= frames);
        let p = m.run(pre);
        lemma_transitions_mark_boundaries(p, b);
        let ds0 = decisions(m, pre);
        let d = p.step(b).1;
        let ds = decisions(m, frames);
        assert(ds == ds0.push(d));
        if d.transition == Some(Transition::SpeechStart) {
            let i = ds0.len() as int;
            assert(ds[i].transition == Some(Transition::SpeechStart));
            assert(segment_left_open(ds));
        } else if d.transition == Some(Transition::SpeechEnd) {
            assert(!segment_left_open(ds)) by {
                if segment_left_open(ds) {
                    let i = choose|i: int|
                        0 <= i < ds.len() && #[trigger] ds[i].transition == Some(Transition::SpeechStart) && forall|
                            j: int,
                        | i < j < ds.len() ==> #[trigger] ds[j].transition != Some(Transition::SpeechEnd);
                    assert(i < ds0.len());
                    assert(ds[ds0.len() as int].transition == Some(Transition::SpeechEnd));
                }
            }
        } else {
            assert(p.step(b).0.is_active() == p.is_active());
            if segment_left_open(ds0) {
                let i = choose|i: int|
                    0 <= i < ds0.len() && #[trigger] ds0[i].transition == Some(Transition::SpeechStart) && forall|j: int|
                        i < j < ds0.len() ==> #[trigger] ds0[j].transition != Some(Transition::SpeechEnd);
                assert(ds[i].transition == Some(Transition::SpeechStart));
                assert forall|j: int| i < j < ds.len() implies #[trigger] ds[j].transition != Some(Transition::SpeechEnd) by {
                    if j < ds0.len() {
                        assert(ds[j] == ds0[j]);
                    }
                }
                assert(segment_left_open(ds));
            }
            if segment_left_open(ds) {
                let i = choose|i: int|
                    0 <= i < ds.len() && #[trigger] ds[i].transition == Some(Transition::SpeechStart) && forall|j: int|
                        i < j < ds.len() ==> #[trigger] ds[j].transition != Some(Transition::SpeechEnd);
                assert(i < ds0.len());
                assert(ds0[i].transition == Some(Transition::SpeechStart));
                assert forall|j: int| i < j < ds0.len() implies #[trigger] ds0[j].transition != Some(Transition::SpeechEnd) by {
                    assert(ds[j] == ds0[j]);
                }
                assert(segment_left_open(ds0));
            }
        }
    }
}

/// From a fresh smoother (no segment open, no pre-roll banked), the pre-roll
/// banked after a run is the number of latest decisions in a row that kept
/// their frame out of a segment, capped at the window.
proof fn lemma_preroll_tracks_inactive_run(m: VadModel, frames: Seq<bool>)
    requires
        m.wf(),
        m.phase == VadPhase::Silence,
        m.preroll_available == 0,
        m.config.preroll_frames >= 1,
    ensures
        m.run(frames).preroll_available == spec_min(
            trailing_inactive(decisions(m, frames)) as int,
            m.config.preroll_frames as int,
        ),
    decreases frames.len(),
{
    if frames.len() == 0 {
        assert(m.run(frames) == m);
    } else {
        let pre = frames.drop_last();
        let b = frames.last();
        lemma_preroll_tracks_inactive_run(m, pre);
        lemma_run_keeps_wf(m, pre);
        lemma_run_push(m, pre, b);
        assert(pre.push(b) =~= frames);
        let p = m.run(pre);
        lemma_step_keeps_wf_and_activity(p, b);
        let ds = decisions(m, frames);
        assert(ds.drop_last() =~= decisions(m, pre));
    }
}

/// Pre-roll on an onset: from a fresh smoother with a window of at least one
/// frame, a speech-start hands back as many frames as the latest decisions in
/// a row kept out of any segment, capped at the window.
pub proof fn lemma_preroll_is_the_inactive_run(m: VadModel, frames: Seq<bool>, b: bool)
    requires
        m.wf(),
        m.phase == VadPhase::Silence,
        m.preroll_available == 0,
        m.config.preroll_frames >= 1,
    ensures
        m.run(frames).step(b).1.transition == Some(Transition::SpeechStart) ==> m.run(frames).step(b).1.preroll_frames
            == spec_min(trailing_inactive(decisions(m, frames)) as int, m.config.preroll_frames as int),
{
    lemma_preroll_tracks_inactive_run(m, frames);
    lemma_run_keeps_wf(m, frames);
}

/// How many of the latest frames in a row are speech.
pub open spec fn trailing_speech(frames: Seq<bool>) -> nat
    decreases frames.len(),
{
    if frames.len() == 0 || !frames.last() {
        0
    } else {
        trailing_speech(frames.drop_last()) + 1
    }
}

/// While no segment is open, the pending speech run of a smoother that
/// started with none is the number of latest frames in a row that are
/// speech: a silent frame starts it again from zero.
proof fn lemma_speech_run_is_trailing_speech(m: VadModel, frames: Seq<bool>)
    requires
        m.wf(),
        m.phase == VadPhase::Silence,
        m.speech_run == 0,
    ensures
        m.run(frames).phase == VadPhase::Silence ==> m.run(frames).speech_run == trailing_speech(frames),
    decreases frames.len(),
{
    if frames.len() > 0 {
        let pre = frames.drop_last();
        let b = frames.last();
        lemma_speech_run_is_trailing_speech(m, pre);
        lemma_run_keeps_wf(m, pre);
        lemma_run_push(m, pre, b);
        assert(pre.push(b) =~= frames);
    } else {
        assert(m.run(frames) == m);
    }
}

/// Onset needs consecutive speech: a silent frame, while no segment is open,
/// drops any pending speech, and from a smoother with none pending a
/// segment opens only on a speech frame that ends a run of at least
/// `onset_frames` speech frames in a row.
pub proof fn lemma_onset_needs_consecutive_speech(m: VadModel, frames: Seq<bool>, b: bool)
    requires
        m.wf(),
        m.phase == VadPhase::Silence,
        m.speech_run == 0,
    ensures
        m.run(frames).phase == VadPhase::Silence ==> m.run(frames).step(false).0.speech_run == 0,
        m.run(frames).step(b).1.transition == Some(Transition::SpeechStart) ==> b && trailing_speech(frames.push(b))
            >= m.config.onset_frames,
{
    lemma_speech_run_is_trailing_speech(m, frames);
    lemma_run_keeps_wf(m, frames);
    let p = m.run(frames);
    if p.step(b).1.transition == Some(Transition::SpeechStart) {
        lemma_transitions_mark_boundaries(p, b);
        assert(frames.push(b).drop_last() =~= frames);
        assert(frames.push(b).last() == b);
    }
}

impl SmoothedVad {
    /// The abstract state of this smoother.
    pub closed spec fn model(&self) -> VadModel {
        VadModel {
            config: self.config,
            phase: self.state,
            speech_run: self.speech_run as nat,
            silence_run: self.silence_run as nat,
            preroll_available: self.preroll_available as nat,
        }
    }

    /// Create a smoother with the given tuning.
    pub fn new(config: SmoothingConfig) -> (r: Self)
        ensures
            r.model() == (VadModel {
                config,
                phase: VadPhase::Silence,
                speech_run: 0,
                silence_run: 0,
                preroll_available: 0,
            }),
            r.model().wf(),
    {
        SmoothedVad { config, state: VadPhase::Silence, speech_run: 0, silence_run: 0, preroll_available: 0 }
    }

    /// Create a smoother using the defaults for a hangover policy, tuned for
    /// an engine whose frames are `frame_ms` long.
    pub fn with_policy(policy: HangoverPolicy, frame_ms: usize) -> (r: Self)
        ensures
            r.model().config.onset_frames == ONSET_FRAMES,
            r.model().config.hangover_frames == spec_frames_for_ms(policy.spec_hangover_ms() as int, frame_ms as int),
            r.model().config.preroll_frames == spec_frames_for_ms(PREROLL_MS as int, frame_ms as int),
            r.model().phase == VadPhase::Silence,
            r.model().speech_run == 0,
            r.model().silence_run == 0,
            r.model().preroll_available == 0,
            r.model().wf(),
    {
        Self::new(SmoothingConfig::for_policy(policy, frame_ms))
    }

    /// Whether a segment is currently open.
    pub fn is_active(&self) -> (r: bool)
        ensures
            r == self.model().is_active(),
    {
        match self.state {
            VadPhase::Silence => false,
            _ => true,
        }
    }

    /// The tuning in use.
    pub fn config(&self) -> (r: SmoothingConfig)
        ensures
            r == self.model().config,
    {
        self.config
    }

    /// Every smoother is well formed: its counters are ones a run of frames
    /// from a fresh smoother can leave.
    #[verifier::type_invariant]
    spec fn inv(self) -> bool {
        self.model().wf()
    }

    /// Feed one frame's raw speech decision and get back what to do with it.
    ///
    /// The decision says whether the frame belongs to a segment, which is
    /// whether one is open afterwards; a speech-start is reported exactly
    /// when a segment opens on this frame, which only a speech frame does,
    /// and a speech-end exactly when one closes, which only a silent frame
    /// does; pre-roll is handed back only with a speech-start.
    pub fn push(&mut self, is_speech: bool) -> (d: FrameDecision)
        ensures
            (final(self).model(), d) == old(self).model().step(is_speech),
            final(self).model().wf(),
            d.active == final(self).model().is_active(),
            (d.transition == Some(Transition::SpeechStart)) <==> (!old(self).model().is_active()
                && final(self).model().is_active()),
            (d.transition == Some(Transition::SpeechEnd)) <==> (old(self).model().is_active()
                && !final(self).model().is_active()),
            d.transition == Some(Transition::SpeechStart) ==> is_speech,
            d.transition == Some(Transition::SpeechEnd) ==> !is_speech,
            d.transition != Some(Transition::SpeechStart) ==> d.preroll_frames == 0,
            !is_speech && !old(self).model().is_active() ==> final(self).model().speech_run == 0,
    {
        proof {
            use_type_invariant(&*self);
            lemma_step_keeps_wf_and_activity(self.model(), is_speech);
            lemma_transitions_mark_boundaries(self.model(), is_speech);
        }
        let c = self.config;
        let grown = if self.preroll_available >= c.preroll_frames {
            c.preroll_frames
        } else {
            self.preroll_available + 1
        };
        let (next, d) = match self.state {
            VadPhase::Silence => {
                if !is_speech {
                    (
                        SmoothedVad { config: c, state: VadPhase::Silence, speech_run: 0, silence_run: 0, preroll_available: grown },
                        FrameDecision { active: false, preroll_frames: 0, transition: None },
                    )
                } else if self.speech_run + 1 < c.onset_frames {
                    (
                        SmoothedVad {
                            config: c,
                            state: VadPhase::Silence,
                            speech_run: self.speech_run + 1,
                            silence_run: 0,
                            preroll_available: grown,
                        },
                        FrameDecision { active: false, preroll_frames: 0, transition: None },
                    )
                } else {
                    (
                        SmoothedVad { config: c, state: VadPhase::Speech, speech_run: 0, silence_run: 0, preroll_available: 0 },
                        FrameDecision {
                            active: true,
                            preroll_frames: self.preroll_available,
                            transition: Some(Transition::SpeechStart),
                        },
                    )
                }
            },
            _ => {
                if is_speech {
                    (
                        SmoothedVad { config: c, state: VadPhase::Speech, speech_run: 0, silence_run: 0, preroll_available: 0 },
                        FrameDecision { active: true, preroll_frames: 0, transition: None },
                    )
                } else if self.silence_run < c.hangover_frames {
                    (
                        SmoothedVad {
                            config: c,
                            state: VadPhase::Hangover,
                            speech_run: 0,
                            silence_run: self.silence_run + 1,
                            preroll_available: 0,
                        },
                        FrameDecision { active: true, preroll_frames: 0, transition: None },
                    )
                } else {
                    (
                        SmoothedVad { config: c, state: VadPhase::Silence, speech_run: 0, silence_run: 0, preroll_available: 1 },
                        FrameDecision { active: false, preroll_frames: 0, transition: Some(Transition::SpeechEnd) },
                    )
                }
            },
        };
        *self = next;
        d
    }
}

} // verus!
