//! Live, frame-accurate speech gating.
//!
//! A stream of 16 kHz mono samples arrives in blocks of any size. The speech gate
//! cuts it into fixed-size frames (buffering the remainder between blocks),
//! and smooths the per-frame speech decision: speech must persist for
//! `onset_frames` before the speech gate opens, and silence for `hangover_frames`
//! before it closes.
use vstd::prelude::*;

verus! {

/// Sample rate the speech gate runs at.
pub const GATE_SAMPLE_RATE: u32 = 16_000;

/// How the per-frame decision is smoothed into a speech/silence state.
#[derive(Debug, Clone, Copy, PartialEq, Eq, Structural)]
pub struct GateConfig {
    /// Consecutive speech frames needed to open the speech gate.
    pub onset_frames: u32,
    /// Consecutive silence frames needed to close it.
    pub hangover_frames: u32,
}

impl Default for GateConfig {
    fn default() -> (r: Self)
        ensures
            r.onset_frames == 2,
            r.hangover_frames == 15,
    {
        GateConfig { onset_frames: 2, hangover_frames: 15 }
    }
}

/// The frames that complete when `samples` arrive after `pending`, with the
/// sample offset just past each one. `base` is the stream offset of the first
/// pending sample.
pub open spec fn spec_frames<T>(all: Seq<T>, base: int, frame: int) -> Seq<(Seq<T>, int)> {
    Seq::new(
        ((all.len() as int) / frame) as nat,
        |j: int| (all.subrange(j * frame, j * frame + frame), base + j * frame + frame),
    )
}

/// What stays pending once every complete frame of `all` is taken.
pub open spec fn spec_remainder<T>(all: Seq<T>, frame: int) -> Seq<T> {
    all.skip(((all.len() as int) / frame) * frame)
}

/// The abstract state of a gate.
pub struct GateModel<T> {
    pub config: GateConfig,
    pub frame_samples: nat,
    pub pending: Seq<T>,
    pub samples_seen: nat,
    pub consecutive_speech: nat,
    pub consecutive_silence: nat,
    pub speaking: bool,
    pub first_speech_sample: Option<nat>,
    pub last_speech_end: Option<nat>,
}

/// The speech gate after one frame's decision. `frame_end` is the sample offset just
/// past that frame.
pub open spec fn spec_classify<T>(g: GateModel<T>, is_speech: bool, frame_end: nat) -> GateModel<T> {
    if is_speech {
        let run = g.consecutive_speech + 1;
        let opens = !g.speaking && run >= g.config.onset_frames;
        GateModel {
            consecutive_speech: run,
            consecutive_silence: 0,
            last_speech_end: Some(frame_end),
            speaking: g.speaking || opens,
            first_speech_sample: if opens && g.first_speech_sample is None {
                Some(
                    (if frame_end >= run * g.frame_samples {
                        frame_end - run * g.frame_samples
                    } else {
                        0
                    }) as nat,
                )
            } else {
                g.first_speech_sample
            },
            ..g
        }
    } else {
        let run = g.consecutive_silence + 1;
        GateModel {
            consecutive_silence: run,
            consecutive_speech: 0,
            speaking: g.speaking && run < g.config.hangover_frames,
            ..g
        }
    }
}

/// A smoothed live speech/silence decision over a stream of samples.
pub struct SpeechGate<T> {
    config: GateConfig,
    frame_samples: usize,
    pending: Vec<T>,
    samples_seen: u64,
    consecutive_speech: u32,
    consecutive_silence: u32,
    speaking: bool,
    first_speech_sample: Option<u64>,
    last_speech_end: Option<u64>,
}

/// Lift an optional machine integer to an optional natural number.
pub open spec fn opt_nat(o: Option<u64>) -> Option<nat> {
    match o {
        Some(v) => Some(v as nat),
        None => None,
    }
}

impl<T: Copy> SpeechGate<T> {
    /// The abstract state of this gate.
    pub closed spec fn model(&self) -> GateModel<T> {
        GateModel {
            config: self.config,
            frame_samples: self.frame_samples as nat,
            pending: self.pending@,
            samples_seen: self.samples_seen as nat,
            consecutive_speech: self.consecutive_speech as nat,
            consecutive_silence: self.consecutive_silence as nat,
            speaking: self.speaking,
            first_speech_sample: opt_nat(self.first_speech_sample),
            last_speech_end: opt_nat(self.last_speech_end),
        }
    }

    /// A frame length is set and less than a frame is pending.
    pub open spec fn wf(&self) -> bool {
        &&& self.model().frame_samples > 0
        &&& self.model().pending.len() < self.model().frame_samples
        &&& self.model().pending.len() <= self.model().samples_seen
    }

    /// A gate over frames of `frame_samples` samples.
    pub fn with_frame_samples(frame_samples: usize, config: GateConfig) -> (r: Self)
        requires
            frame_samples > 0,
        ensures
            r.wf(),
            r.model() == (GateModel::<T> {
                config,
                frame_samples: frame_samples as nat,
                pending: Seq::empty(),
                samples_seen: 0,
                consecutive_speech: 0,
                consecutive_silence: 0,
                speaking: false,
                first_speech_sample: None,
                last_speech_end: None,
            }),
    {
        let r = SpeechGate {
            config,
            frame_samples,
            pending: Vec::with_capacity(frame_samples),
            samples_seen: 0,
            consecutive_speech: 0,
            consecutive_silence: 0,
            speaking: false,
            first_speech_sample: None,
            last_speech_end: None,
        };
        assert(r.model().pending =~= Seq::<T>::empty());
        r
    }

    /// Samples per frame.
    pub fn frame_samples(&self) -> (r: usize)
        ensures
            r == self.model().frame_samples,
    {
        self.frame_samples
    }

    /// Whether a block of `len` more samples keeps the speech gate's counters
    /// within their fixed-width integer types: the stream offset, the speech and
    /// silence runs, and the sample offset a run of speech dates back to.
    pub fn block_fits(&self, len: usize) -> (r: bool)
        ensures
            r == (self.model().samples_seen + len <= u64::MAX && self.model().consecutive_speech + len < u32::MAX
                && self.model().consecutive_silence + len < u32::MAX && (self.model().consecutive_speech + len + 1)
                * self.model().frame_samples <= u64::MAX),
    {
        let seen = self.samples_seen as u128 + len as u128;
        let speech = self.consecutive_speech as u128 + len as u128;
        let silence = self.consecutive_silence as u128 + len as u128;
        if seen > u64::MAX as u128 || speech >= u32::MAX as u128 || silence >= u32::MAX as u128 {
            return false;
        }
        let run = speech + 1;
        let fs = self.frame_samples as u128;
        assert(run <= 0x1_0000_0000);
        assert(fs <= 0xffff_ffff_ffff_ffff);
        assert(run * fs <= 0x1_0000_0000 * 0xffff_ffff_ffff_ffff) by (nonlinear_arith)
            requires
                run <= 0x1_0000_0000,
                fs <= 0xffff_ffff_ffff_ffff,
        ;
        run * fs <= u64::MAX as u128
    }

    /// Take in a block of samples and return every frame it completes, each
    /// with the stream offset just past it. The samples left over stay
    /// pending until the next block.
    pub fn split_frames(&mut self, samples: &[T]) -> (frames: Vec<(Vec<T>, u64)>)
        requires
            old(self).wf(),
            old(self).model().samples_seen + samples@.len() <= u64::MAX,
        ensures
            final(self).wf(),
            ({
                let g = old(self).model();
                let all = g.pending + samples@;
                let base = g.samples_seen - g.pending.len();
                &&& frames@.len() == spec_frames(all, base, g.frame_samples as int).len()
                &&& forall|j: int| 0 <= j < frames@.len() ==> (#[trigger] frames@[j]).0@ == spec_frames(
                    all,
                    base,
                    g.frame_samples as int,
                )[j].0 && frames@[j].1 == spec_frames(all, base, g.frame_samples as int)[j].1
                &&& final(self).model() == GateModel {
                    pending: spec_remainder(all, g.frame_samples as int),
                    samples_seen: g.samples_seen + samples@.len(),
                    ..g
                }
            }),
    {
        let ghost g = self.model();
        let ghost all = g.pending + samples@;
        let ghost f = g.frame_samples as int;
        let ghost base = g.samples_seen - g.pending.len();
        let ghost p0 = g.pending.len() as int;
        self.samples_seen = self.samples_seen + samples.len() as u64;
        let mut frames: Vec<(Vec<T>, u64)> = Vec::new();
        let mut pos: usize = 0;
        let fs = self.frame_samples;
        assert(self.pending@ =~= all.subrange(0, p0));
        assert(0 * f == 0);
        while pos < samples.len()
            invariant
                self.frame_samples == fs,
                fs as int == f,
                f > 0,
                pos <= samples@.len(),
                self.samples_seen == g.samples_seen + samples@.len(),
                g.samples_seen + samples@.len() <= u64::MAX,
                0 <= p0 <= base + p0,
                base == g.samples_seen - p0,
                all == g.pending + samples@,
                p0 == g.pending.len(),
                p0 < f,
                frames@.len() * f + self.pending@.len() == p0 + pos,
                self.pending@.len() < f,
                self.pending@ == all.subrange(frames@.len() * f, p0 + pos),
                forall|j: int| 0 <= j < frames@.len() ==> (#[trigger] frames@[j]).0@ == all.subrange(j * f, j * f + f)
                    && frames@[j].1 == base + j * f + f,
                self.config == g.config,
                self.consecutive_speech == g.consecutive_speech,
                self.consecutive_silence == g.consecutive_silence,
                self.speaking == g.speaking,
                self.first_speech_sample == old(self).first_speech_sample,
                self.last_speech_end == old(self).last_speech_end,
            decreases samples@.len() - pos,
        {
            let want = fs - self.pending.len();
            let left = samples.len() - pos;
            let take = if want <= left { want } else { left };
            let mut k: usize = 0;
            let ghost before = self.pending@;
            while k < take
                invariant
                    k <= take,
                    take <= samples@.len() - pos,
                    pos + take <= samples@.len(),
                    samples@.len() == samples.len(),
                    self.pending@ == before + samples@.subrange(pos as int, pos + k),
                    self.frame_samples == fs,
                    self.samples_seen == g.samples_seen + samples@.len(),
                    self.config == g.config,
                    self.consecutive_speech == g.consecutive_speech,
                    self.consecutive_silence == g.consecutive_silence,
                    self.speaking == g.speaking,
                    self.first_speech_sample == old(self).first_speech_sample,
                    self.last_speech_end == old(self).last_speech_end,
                decreases take - k,
            {
                assert(pos + k < samples@.len());
                let idx = pos + k;
                let x = samples[idx];
                self.pending.push(x);
                assert(self.pending@ =~= before + samples@.subrange(pos as int, pos + k + 1));
                k = k + 1;
            }
            let ghost nf = frames@.len() as int;
            assert(self.pending@ =~= all.subrange(nf * f, p0 + pos + take)) by {
                assert(before == all.subrange(nf * f, p0 + pos));
                assert forall|i: int| 0 <= i < self.pending@.len() implies self.pending@[i] == all.subrange(
                    nf * f,
                    p0 + pos + take,
                )[i] by {
                    if i < before.len() {
                    } else {
                        assert(all[nf * f + i] == samples@[(pos + i - before.len()) as int]);
                    }
                }
            }
            pos = pos + take;
            if self.pending.len() == fs {
                let frame_end = self.samples_seen - (samples.len() - pos) as u64;
                let mut frame: Vec<T> = Vec::new();
                std::mem::swap(&mut frame, &mut self.pending);
                assert((nf + 1) * f == nf * f + f) by (nonlinear_arith);
                assert(frame_end == base + nf * f + f);
                frames.push((frame, frame_end));
                assert(self.pending@ =~= all.subrange((nf + 1) * f, p0 + pos));
            }
        }
        proof {
            let nf = frames@.len() as int;
            assert(all.len() == p0 + samples@.len());
            assert(nf * f + self.pending@.len() == all.len());
            vstd::arithmetic::div_mod::lemma_fundamental_div_mod_converse(
                all.len() as int,
                f,
                nf,
                self.pending@.len() as int,
            );
            assert(self.pending@ =~= spec_remainder(all, f));
            assert forall|j: int| 0 <= j < frames@.len() implies (#[trigger] frames@[j]).0@ == spec_frames(
                all,
                base,
                f,
            )[j].0 && frames@[j].1 == spec_frames(all, base, f)[j].1 by {}
            assert(g.samples_seen - p0 >= 0);
            assert(self.model().pending == spec_remainder(all, f));
            assert(self.model() == GateModel { pending: spec_remainder(all, f), samples_seen: g.samples_seen + samples@.len(), ..g });
        }
        frames
    }

    /// Apply one frame's speech decision. `frame_end` is the sample offset
    /// just past that frame.
    pub fn classify(&mut self, is_speech: bool, frame_end: u64)
        requires
            old(self).model().consecutive_speech < u32::MAX,
            old(self).model().consecutive_silence < u32::MAX,
            (old(self).model().consecutive_speech + 1) * old(self).model().frame_samples <= u64::MAX,
        ensures
            final(self).model() == spec_classify(old(self).model(), is_speech, frame_end as nat),
    {
        if is_speech {
            self.consecutive_speech = self.consecutive_speech + 1;
            self.consecutive_silence = 0;
            self.last_speech_end = Some(frame_end);
            if !self.speaking && self.consecutive_speech >= self.config.onset_frames {
                self.speaking = true;
                if self.first_speech_sample.is_none() {
                    let run = self.consecutive_speech as u64 * self.frame_samples as u64;
                    let start = if frame_end >= run { frame_end - run } else { 0 };
                    self.first_speech_sample = Some(start);
                }
            }
        } else {
            self.consecutive_silence = self.consecutive_silence + 1;
            self.consecutive_speech = 0;
            if self.speaking && self.consecutive_silence >= self.config.hangover_frames {
                self.speaking = false;
            }
        }
    }

    /// Whether the speech gate is currently open.
    pub fn is_speaking(&self) -> (r: bool)
        ensures
            r == self.model().speaking,
    {
        self.speaking
    }

    /// Whether any speech has been accepted since the last reset.
    pub fn has_heard_speech(&self) -> (r: bool)
        ensures
            r == self.model().first_speech_sample is Some,
    {
        self.first_speech_sample.is_some()
    }

    /// Sample offset where the first accepted speech began, if any.
    pub fn first_speech_sample(&self) -> (r: Option<u64>)
        ensures
            opt_nat(r) == self.model().first_speech_sample,
    {
        self.first_speech_sample
    }

    /// Milliseconds of audio since the last frame classified as speech, or
    /// `None` until speech has been heard.
    pub fn silence_ms_after_speech(&self) -> (r: Option<u64>)
        requires
            self.model().last_speech_end matches Some(last) ==> (if self.model().samples_seen >= last {
                self.model().samples_seen - last
            } else {
                0
            }) * 1000 <= u64::MAX,
        ensures
            opt_nat(r) == match self.model().last_speech_end {
                None => None::<nat>,
                Some(last) => Some(
                    ((if self.model().samples_seen >= last { self.model().samples_seen - last } else { 0 })
                        * 1000 / (GATE_SAMPLE_RATE as int)) as nat,
                ),
            },
    {
        match self.last_speech_end {
            None => None,
            Some(last) => {
                let elapsed = if self.samples_seen >= last { self.samples_seen - last } else { 0 };
                Some(elapsed * 1000 / (GATE_SAMPLE_RATE as u64))
            },
        }
    }

    /// Clear all stream state for a new recording; the tuning and frame length
    /// are kept.
    pub fn reset(&mut self)
        ensures
            final(self).model() == (GateModel::<T> {
                pending: Seq::empty(),
                samples_seen: 0,
                consecutive_speech: 0,
                consecutive_silence: 0,
                speaking: false,
                first_speech_sample: None,
                last_speech_end: None,
                ..old(self).model()
            }),
    {
        self.pending.clear();
        self.samples_seen = 0;
        self.consecutive_speech = 0;
        self.consecutive_silence = 0;
        self.speaking = false;
        self.first_speech_sample = None;
        self.last_speech_end = None;
        assert(self.pending@ =~= Seq::<T>::empty());
    }
}

/// What was heard stays heard: once speech has been accepted, classifying
/// any further frame, speech or silence, keeps the offset where it began.
pub proof fn lemma_first_speech_is_kept<T>(g: GateModel<T>, is_speech: bool, frame_end: nat)
    requires
        g.first_speech_sample is Some,
    ensures
        spec_classify(g, is_speech, frame_end).first_speech_sample == g.first_speech_sample,
{
}

/// Block boundaries do not change the framing: feeding `a` and then `b`
/// yields the same frames, offsets and leftover as feeding `a + b` at once.
pub proof fn lemma_framing_independent_of_blocks<T>(pending: Seq<T>, seen: int, a: Seq<T>, b: Seq<T>, f: int)
    requires
        f > 0,
        pending.len() < f,
        pending.len() <= seen,
    ensures
        ({
            let base = seen - pending.len();
            let all1 = pending + a;
            let p1 = spec_remainder(all1, f);
            let seen1 = seen + a.len();
            let all2 = p1 + b;
            &&& spec_frames(all1, base, f) + spec_frames(all2, seen1 - p1.len(), f) == spec_frames(
                pending + a + b,
                base,
                f,
            )
            &&& spec_remainder(all2, f) == spec_remainder(pending + a + b, f)
        }),
{
    let base = seen - pending.len();
    let all1 = pending + a;
    let all = pending + a + b;
    let k1 = (all1.len() as int) / f;
    vstd::arithmetic::div_mod::lemma_fundamental_div_mod(all1.len() as int, f);
    let r1 = (all1.len() as int) % f;
    assert(f * k1 + r1 == all1.len());
    assert(k1 * f == f * k1) by (nonlinear_arith);
    assert(k1 >= 0) by (nonlinear_arith)
        requires f * k1 + r1 == all1.len(), 0 <= r1 < f, f > 0;
    let p1 = spec_remainder(all1, f);
    assert(p1.len() == r1);
    let seen1 = seen + a.len();
    let base2 = seen1 - p1.len();
    assert(base2 == base + k1 * f);
    let all2 = p1 + b;
    assert(all2 =~= all.skip(k1 * f));
    let k2 = (all2.len() as int) / f;
    vstd::arithmetic::div_mod::lemma_fundamental_div_mod(all2.len() as int, f);
    let r2 = (all2.len() as int) % f;
    assert(all.len() == (k1 + k2) * f + r2) by (nonlinear_arith)
        requires f * k2 + r2 == all2.len(), all.len() == k1 * f + all2.len();
    vstd::arithmetic::div_mod::lemma_fundamental_div_mod_converse(all.len() as int, f, k1 + k2, r2);
    assert(k2 >= 0) by (nonlinear_arith)
        requires f * k2 + r2 == all2.len(), 0 <= r2 < f, f > 0;
    let lhs = spec_frames(all1, base, f) + spec_frames(all2, base2, f);
    let rhs = spec_frames(all, base, f);
    assert(lhs.len() == rhs.len());
    assert forall|j: int| 0 <= j < lhs.len() implies lhs[j] == rhs[j] by {
        if j < k1 {
            assert(j * f + f <= k1 * f) by (nonlinear_arith)
                requires j < k1, f > 0;
            assert(j * f >= 0) by (nonlinear_arith)
                requires j >= 0, f > 0;
            assert(all1.subrange(j * f, j * f + f) =~= all.subrange(j * f, j * f + f));
        } else {
            let i = j - k1;
            assert(i * f + k1 * f == j * f) by (nonlinear_arith)
                requires i == j - k1;
            assert(i * f + f <= k2 * f) by (nonlinear_arith)
                requires i < k2, f > 0;
            assert(i * f >= 0) by (nonlinear_arith)
                requires i >= 0, f > 0;
            assert(spec_frames(all2, base2, f)[i] == lhs[j]);
            assert(all2.subrange(i * f, i * f + f) =~= all.subrange(j * f, j * f + f));
        }
    }
    assert(lhs =~= rhs);
    assert(k2 * f + k1 * f == (k1 + k2) * f) by (nonlinear_arith);
    assert(spec_remainder(all2, f) =~= spec_remainder(all, f));
}

/// The live gate's state as published for other readers: whether a gate is
/// running, whether the user is speaking, whether speech has been heard in
/// this recording, and the trailing silence.
#[derive(Debug, Clone, Copy, PartialEq, Eq, Structural)]
pub struct SpeechActivity {
    /// Whether a gate is publishing at all.
    pub live: bool,
    /// Whether the user is speaking right now (smoothed).
    pub speaking: bool,
    /// Whether any speech has been heard in this recording.
    pub heard_speech: bool,
    /// Milliseconds of trailing silence, meaningful only once speech is heard.
    pub silence_ms: u64,
}

impl Default for SpeechActivity {
    fn default() -> (r: Self)
        ensures
            r == (SpeechActivity { live: false, speaking: false, heard_speech: false, silence_ms: 0 }),
    {
        SpeechActivity { live: false, speaking: false, heard_speech: false, silence_ms: 0 }
    }
}

impl SpeechActivity {
    /// Whether a live gate is publishing to this snapshot.
    pub fn is_live(&self) -> (r: bool)
        ensures
            r == self.live,
    {
        self.live
    }

    /// Whether the user is speaking right now.
    pub fn is_speaking(&self) -> (r: bool)
        ensures
            r == self.speaking,
    {
        self.speaking
    }

    /// Whether any speech has been heard in this recording.
    pub fn has_heard_speech(&self) -> (r: bool)
        ensures
            r == self.heard_speech,
    {
        self.heard_speech
    }

    /// Trailing silence in milliseconds, or `None` before any speech.
    pub fn silence_ms_after_speech(&self) -> (r: Option<u64>)
        ensures
            r == if self.heard_speech { Some(self.silence_ms) } else { None },
    {
        if !self.heard_speech {
            return None;
        }
        Some(self.silence_ms)
    }

    /// Mark a new recording's gate as running and clear the previous one's
    /// state.
    pub fn start(&mut self)
        ensures
            *final(self) == (SpeechActivity { live: true, speaking: false, heard_speech: false, silence_ms: 0 }),
    {
        self.speaking = false;
        self.heard_speech = false;
        self.silence_ms = 0;
        self.live = true;
    }

    /// Mark the speech gate as no longer running.
    pub fn stop(&mut self)
        ensures
            *final(self) == (SpeechActivity { live: false, speaking: false, ..*old(self) }),
    {
        self.live = false;
        self.speaking = false;
    }

    /// Publish one gate's current state.
    pub fn publish<T: Copy>(&mut self, gate: &SpeechGate<T>)
        requires
            gate.model().last_speech_end matches Some(last) ==> (if gate.model().samples_seen >= last {
                gate.model().samples_seen - last
            } else {
                0
            }) * 1000 <= u64::MAX,
        ensures
            final(self).live == old(self).live,
            final(self).speaking == gate.model().speaking,
            final(self).heard_speech == (gate.model().first_speech_sample is Some),
            final(self).silence_ms == match gate.model().last_speech_end {
                None => old(self).silence_ms as int,
                Some(last) => (if gate.model().samples_seen >= last {
                    gate.model().samples_seen - last
                } else {
                    0
                }) * 1000 / (GATE_SAMPLE_RATE as int),
            },
    {
        self.speaking = gate.is_speaking();
        if let Some(ms) = gate.silence_ms_after_speech() {
            self.silence_ms = ms;
        }
        self.heard_speech = gate.has_heard_speech();
    }
}

} // verus!
