//! WebRTC voice-activity detection over 16-bit PCM: driving the live speech
//! gate frame by frame, and finding where speech starts for the
//! leading-silence trim.
//!
//! The detector keeps adaptive noise estimates from frame to frame, so its
//! verdict on a frame depends on everything it has been fed since it was
//! made; given those frames it is determined, and the contracts name it.
use vstd::prelude::*;
use crate::speech_gate::{spec_classify, spec_frames, spec_remainder, GateModel, SpeechGate};
use crate::vad::{leading_trim_range, should_trim, trim_frame_size, VadFrameDuration};

verus! {

#[verifier::external_type_specification]
#[verifier::external_body]
pub struct ExVad(webrtc_vad::Vad);

/// A detector for 16 kHz input in the `Aggressive` mode.
///
/// Wraps `webrtc_vad::Vad::new_with_rate_and_mode` with
/// `SampleRate::Rate16kHz` and `VadMode::Aggressive`. The crate panics only
/// when the C library cannot allocate its state; nothing is claimed of the
/// detector made.
#[verifier::external_body]
fn aggressive_vad_16khz() -> (r: webrtc_vad::Vad) {
    webrtc_vad::Vad::new_with_rate_and_mode(webrtc_vad::SampleRate::Rate16kHz, webrtc_vad::VadMode::Aggressive)
}

/// The verdict of WebRTC's detector, made fresh for 16 kHz in the
/// `Aggressive` mode and fed the frames of `history` in order, on `frame`:
/// `Ok(true)` for voice, `Ok(false)` for none, `Err(())` for a length it does
/// not take. The detector's fixed-point state is a function of the frames it
/// has been fed, so the verdict is a function of these two arguments.
pub uninterp spec fn spec_fresh_verdict(history: Seq<Seq<i16>>, frame: Seq<i16>) -> Result<bool, ()>;

/// A frame length the detector takes at 16 kHz: 10, 20 or 30 ms.
pub open spec fn accepted_at_16khz(len: int) -> bool {
    len == 160 || len == 320 || len == 480
}

/// WebRTC's voice-activity detector over frames of one duration, in the
/// same aggressive mode the trim uses, so the live gate and the trim agree
/// about what counts as speech.
///
/// Its fields are private to this module: the detector is made fresh (by
/// `aggressive_vad_16khz`) exactly when `heard` is set empty, and it is fed
/// a frame only by `detector_verdict`, which adds that frame to `heard`. So
/// `heard` always holds the frames the detector has been fed since it was
/// made.
pub struct WebRtcDetector {
    vad: webrtc_vad::Vad,
    frame: VadFrameDuration,
    /// The frames asked about since the detector was made or last reset.
    heard: Ghost<Seq<Seq<i16>>>,
}

/// The detector's verdict on one frame, which joins its history.
///
/// Wraps `webrtc_vad::Vad::is_voice_segment` on the detector's own `Vad`,
/// which reads the first sample through a pointer and so needs a non-empty
/// frame. The detector was made for 16 kHz in the aggressive mode and has
/// been fed exactly the frames of its history (see `WebRtcDetector`), so the
/// verdict is the named one. `fvad_process` refuses, before looking at the
/// samples, any length that is not 10, 20 or 30 ms at that rate. The ghost
/// update records the frame fed; it has no effect at run time.
#[verifier::external_body]
fn detector_verdict(det: &mut WebRtcDetector, frame: &[i16]) -> (r: Result<bool, ()>)
    requires
        frame@.len() > 0,
    ensures
        r == spec_fresh_verdict(old(det).history(), frame@),
        r is Ok <==> accepted_at_16khz(frame@.len() as int),
        final(det).history() == old(det).history().push(frame@),
        final(det).frame() == old(det).frame(),
{
    let r = det.vad.is_voice_segment(frame);
    det.heard = Ghost(det.heard@.push(frame@));
    r
}

impl WebRtcDetector {
    /// The frame duration this detector classifies.
    pub closed spec fn frame(&self) -> VadFrameDuration {
        self.frame
    }

    /// The frames the detector has been asked about since it was made or
    /// last reset, oldest first: its adaptive state, and so its next
    /// verdict, comes from these alone.
    pub closed spec fn history(&self) -> Seq<Seq<i16>> {
        self.heard@
    }

    /// A fresh detector over frames of the given duration.
    pub fn new(frame: VadFrameDuration) -> (r: Self)
        ensures
            r.frame() == frame,
            r.history() == Seq::<Seq<i16>>::empty(),
    {
        WebRtcDetector { vad: aggressive_vad_16khz(), frame, heard: Ghost(Seq::empty()) }
    }

    /// Samples per frame at 16 kHz.
    pub fn frame_samples(&self) -> (r: usize)
        ensures
            r == self.frame().spec_samples_at_16khz(),
    {
        self.frame.samples_at_16khz()
    }

    /// Whether a frame is speech: only a frame the detector accepts and
    /// judges voiced, given what it has heard, is; a frame of a length it
    /// refuses is not. The frame joins the detector's history.
    pub fn is_speech(&mut self, pcm: &[i16]) -> (r: bool)
        requires
            pcm@.len() > 0,
        ensures
            final(self).frame() == old(self).frame(),
            final(self).history() == old(self).history().push(pcm@),
            r == (spec_fresh_verdict(old(self).history(), pcm@) == Ok::<bool, ()>(true)),
            r ==> accepted_at_16khz(pcm@.len() as int),
    {
        match detector_verdict(self, pcm) {
            Ok(v) => v,
            Err(_) => false,
        }
    }

    /// Forget the adaptive state before a new stream. The crate's own
    /// `reset` would also put the sample rate and mode back to their
    /// defaults, so a new 16 kHz aggressive detector replaces this one, with
    /// an empty history.
    pub fn reset(&mut self)
        ensures
            final(self).frame() == old(self).frame(),
            final(self).history() == Seq::<Seq<i16>>::empty(),
    {
        self.vad = aggressive_vad_16khz();
        self.heard = Ghost(Seq::empty());
    }
}

/// The speech gate after classifying `frames` in order with the verdicts `v`, one
/// per frame.
pub open spec fn classify_run<T>(g: GateModel<T>, frames: Seq<(Seq<T>, int)>, v: Seq<bool>) -> GateModel<T>
    decreases v.len(),
{
    if v.len() == 0 || frames.len() == 0 {
        g
    } else {
        spec_classify(classify_run(g, frames.drop_last(), v.drop_last()), v.last(), frames.last().1 as nat)
    }
}

/// Every frame cut from a block is a whole frame long.
proof fn lemma_frame_lengths<T>(all: Seq<T>, base: int, f: int)
    requires
        f > 0,
    ensures
        forall|j: int| 0 <= j < spec_frames(all, base, f).len() ==> (#[trigger] spec_frames(all, base, f)[j]).0.len() == f,
{
    let n = (all.len() as int) / f;
    vstd::arithmetic::div_mod::lemma_fundamental_div_mod(all.len() as int, f);
    assert forall|j: int| 0 <= j < spec_frames(all, base, f).len() implies (#[trigger] spec_frames(all, base, f)[j]).0.len() == f by {
        assert(j * f + f <= n * f) by (nonlinear_arith)
            requires
                j < n,
                f > 0,
        ;
        assert(n * f <= all.len()) by (nonlinear_arith)
            requires
                f * n + (all.len() as int) % f == all.len(),
                (all.len() as int) % f >= 0,
        ;
        assert(j * f >= 0) by (nonlinear_arith)
            requires
                j >= 0,
                f > 0,
        ;
    }
}

/// A block that completes `(pending + samples) / frame` frames completes no
/// more frames than it has samples.
proof fn lemma_frames_bounded(p: int, s: int, f: int)
    requires
        0 <= p < f,
        s >= 0,
    ensures
        (p + s) / f <= s,
        (p + s) / f >= 0,
{
    vstd::arithmetic::div_mod::lemma_fundamental_div_mod(p + s, f);
    let q = (p + s) / f;
    let r = (p + s) % f;
    assert(q <= s) by (nonlinear_arith)
        requires
            f * q + r == p + s,
            0 <= r < f,
            0 <= p < f,
            s >= 0,
    ;
    assert(q >= 0) by (nonlinear_arith)
        requires
            f * q + r == p + s,
            0 <= r < f,
            p + s >= 0,
            f > 0,
    ;
}

/// The sample texts of a sequence of frames.
pub open spec fn frame_texts(fr: Seq<(Seq<i16>, int)>) -> Seq<Seq<i16>> {
    fr.map_values(|f: (Seq<i16>, int)| f.0)
}

/// The detector's answers on `fr` in order, starting from `history`: frame
/// `k` is speech when the detector, having heard `history` and the frames
/// before `k`, judges it voiced.
pub open spec fn detector_answers(history: Seq<Seq<i16>>, fr: Seq<(Seq<i16>, int)>) -> Seq<bool> {
    Seq::new(
        fr.len(),
        |k: int| spec_fresh_verdict(history + frame_texts(fr.take(k)), fr[k].0) == Ok::<bool, ()>(true),
    )
}

/// Feed a block of 16 kHz 16-bit samples through the speech gate, asking the
/// detector about every frame it completes, once each and in order. The
/// detector hears exactly those frames, and the speech gate ends as
/// `classify_run` makes it from the detector's answers on them; the result
/// says whether the speech gate opened or closed on this block.
pub fn push_pcm(gate: &mut SpeechGate<i16>, detector: &mut WebRtcDetector, samples: &[i16]) -> (changed: bool)
    requires
        old(gate).wf(),
        old(gate).model().samples_seen + samples@.len() <= u64::MAX,
        old(gate).model().consecutive_speech + samples@.len() < u32::MAX,
        old(gate).model().consecutive_silence + samples@.len() < u32::MAX,
        (old(gate).model().consecutive_speech + samples@.len() + 1) * old(gate).model().frame_samples <= u64::MAX,
    ensures
        final(gate).wf(),
        final(detector).frame() == old(detector).frame(),
        ({
            let g = old(gate).model();
            let all = g.pending + samples@;
            let fr = spec_frames(all, g.samples_seen - g.pending.len(), g.frame_samples as int);
            let split = GateModel { pending: spec_remainder(all, g.frame_samples as int), samples_seen: g.samples_seen + samples@.len(), ..g };
            &&& final(detector).history() == old(detector).history() + frame_texts(fr)
            &&& classify_run(split, fr, detector_answers(old(detector).history(), fr)) == final(gate).model()
        }),
        changed == (final(gate).model().speaking != old(gate).model().speaking),
{
    let ghost g = gate.model();
    let ghost all = g.pending + samples@;
    let ghost fr = spec_frames(all, g.samples_seen - g.pending.len(), g.frame_samples as int);
    let was_speaking = gate.is_speaking();
    let frames = gate.split_frames(samples);
    let ghost split = gate.model();
    proof {
        lemma_frames_bounded(g.pending.len() as int, samples@.len() as int, g.frame_samples as int);
        lemma_frame_lengths(all, g.samples_seen - g.pending.len(), g.frame_samples as int);
    }
    let ghost mut v: Seq<bool> = Seq::empty();
    let mut k: usize = 0;
    assert(fr.take(0) =~= Seq::<(Seq<i16>, int)>::empty());
    assert(detector.history() + frame_texts(fr.take(0)) =~= detector.history());
    while k < frames.len()
        invariant
            k <= frames@.len(),
            frames@.len() == fr.len(),
            fr.len() <= samples@.len(),
            forall|j: int| 0 <= j < frames@.len() ==> (#[trigger] frames@[j]).0@ == fr[j].0 && frames@[j].1 == fr[j].1,
            forall|j: int| 0 <= j < fr.len() ==> (#[trigger] fr[j]).0.len() == g.frame_samples,
            g.frame_samples > 0,
            v.len() == k,
            gate.model() == classify_run(split, fr.take(k as int), v),
            gate.wf(),
            gate.model().frame_samples == g.frame_samples,
            gate.model().consecutive_speech <= g.consecutive_speech + k,
            gate.model().consecutive_silence <= g.consecutive_silence + k,
            g.consecutive_speech + samples@.len() < u32::MAX,
            g.consecutive_silence + samples@.len() < u32::MAX,
            (g.consecutive_speech + samples@.len() + 1) * g.frame_samples <= u64::MAX,
            detector.frame() == old(detector).frame(),
            detector.history() == old(detector).history() + frame_texts(fr.take(k as int)),
            forall|j: int| 0 <= j < k ==> #[trigger] v[j] == detector_answers(old(detector).history(), fr)[j],
        decreases frames@.len() - k,
    {
        assert(frames@[k as int].0@.len() == g.frame_samples);
        let verdict = detector.is_speech(frames[k].0.as_slice());
        proof {
            assert(frame_texts(fr.take(k + 1)) =~= frame_texts(fr.take(k as int)).push(fr[k as int].0));
            assert(detector.history() =~= old(detector).history() + frame_texts(fr.take(k + 1)));
            assert(verdict == detector_answers(old(detector).history(), fr)[k as int]);
        }
        assert((gate.model().consecutive_speech + 1) * g.frame_samples <= (g.consecutive_speech + samples@.len() + 1) * g.frame_samples) by (nonlinear_arith)
            requires
                gate.model().consecutive_speech + 1 <= g.consecutive_speech + samples@.len() + 1,
        ;
        let ghost before = gate.model();
        gate.classify(verdict, frames[k].1);
        proof {
            let v2 = v.push(verdict);
            assert(fr.take(k + 1).drop_last() =~= fr.take(k as int));
            assert(v2.drop_last() =~= v);
            assert(fr.take(k + 1).last() == fr[k as int]);
            v = v2;
        }
        k = k + 1;
    }
    assert(fr.take(fr.len() as int) =~= fr);
    assert(v =~= detector_answers(old(detector).history(), fr));
    assert(classify_run(split, fr, v) == gate.model());
    gate.is_speaking() != was_speaking
}

/// The frame handed to the detector for the trim: 480 samples starting at
/// `pos`. At 16 kHz they are `pcm[pos..pos + 480]`; at another rate, the
/// frame of `actual` samples there is stretched or squeezed to 480 by taking
/// sample `pos + i * actual / 480` for the `i`-th, or silence past the end.
pub open spec fn spec_detection_frame(pcm: Seq<i16>, pos: int, actual: int, resample: bool) -> Seq<i16> {
    Seq::new(
        480,
        |i: int|
            if resample {
                let idx = pos + i * actual / 480;
                if idx < pcm.len() {
                    pcm[idx]
                } else {
                    0i16
                }
            } else {
                pcm[pos + i]
            },
    )
}

/// Build the frame the trim hands to the detector.
pub fn detection_frame(pcm: &[i16], pos: usize, actual: usize, resample: bool) -> (r: Vec<i16>)
    requires
        pos + actual <= pcm@.len(),
        !resample ==> actual == 480,
    ensures
        r@ == spec_detection_frame(pcm@, pos as int, actual as int, resample),
{
    let n = pcm.len();
    let mut out: Vec<i16> = Vec::new();
    let mut i: usize = 0;
    while i < 480
        invariant
            i <= 480,
            n == pcm@.len(),
            pos + actual <= pcm@.len(),
            !resample ==> actual == 480,
            out@ =~= spec_detection_frame(pcm@, pos as int, actual as int, resample).take(i as int),
        decreases 480 - i,
    {
        let s: i16 = if resample {
            let q = actual / 480;
            let rem = actual % 480;
            assert(i * q <= actual && i * rem < 480 * 480 && i * q + i * rem / 480 <= actual
                && i * q + i * rem / 480 == i * actual / 480) by (nonlinear_arith)
                requires
                    actual == 480 * q + rem,
                    0 <= rem < 480,
                    i < 480,
                    q >= 0,
            ;
            let off = i * q + i * rem / 480;
            assert(off == i * actual / 480 && off <= actual) by (nonlinear_arith)
                requires
                    actual == 480 * q + rem,
                    0 <= rem < 480,
                    i < 480,
                    q >= 0,
                    off == i * q + i * rem / 480,
            ;
            let idx = pos + off;
            if idx < pcm.len() {
                pcm[idx]
            } else {
                0
            }
        } else {
            pcm[pos + i]
        };
        out.push(s);
        i = i + 1;
    }
    out
}

/// Samples in one 30 ms frame at `sample_rate`.
pub open spec fn trim_frame_len(sample_rate: u32) -> int {
    480 * sample_rate / 16_000
}

/// The frames the trim hands to the detector, in order: one for each whole
/// 30 ms frame of the recording, made by `spec_detection_frame`.
pub open spec fn trim_frames(pcm: Seq<i16>, sample_rate: u32) -> Seq<Seq<i16>> {
    let a = trim_frame_len(sample_rate);
    Seq::new(
        (pcm.len() as int / a) as nat,
        |f: int| spec_detection_frame(pcm, f * a, a, sample_rate != 16_000),
    )
}

/// Whether the trim's detector, made fresh and fed the frames before the
/// `k`-th, judges the `k`-th frame speech.
pub open spec fn trim_voiced(frames: Seq<Seq<i16>>, k: int) -> bool {
    spec_fresh_verdict(frames.take(k), frames[k]) == Ok::<bool, ()>(true)
}

/// Frame `k` is the first one judged speech.
pub open spec fn is_first_voiced(frames: Seq<Seq<i16>>, k: int) -> bool {
    &&& 0 <= k < frames.len()
    &&& trim_voiced(frames, k)
    &&& forall|j: int| 0 <= j < k ==> !#[trigger] trim_voiced(frames, j)
}

/// Where the kept range starts for speech beginning at sample `onset`:
/// `margin` samples earlier, or at zero.
pub open spec fn start_before(onset: int, margin: int) -> int {
    if onset >= margin {
        onset - margin
    } else {
        0
    }
}

/// Where the leading-silence trim starts and ends for a recording of 16-bit
/// samples at `sample_rate`, keeping `margin` samples before the first
/// speech.
///
/// A recording too short to trim is kept whole. Otherwise a fresh detector
/// is asked about one 30 ms frame after another, from the start, until one
/// is speech; the kept range then starts `margin` samples before that frame
/// (or at zero), and when no frame is speech it is the whole recording. The
/// end is always the end of the recording.
pub fn trim_silence_pcm(pcm: &[i16], sample_rate: u32, margin: usize) -> (r: (usize, usize))
    ensures
        r.1 == pcm@.len(),
        r.0 <= r.1,
        !should_trim_spec(pcm@.len(), sample_rate) ==> r.0 == 0,
        should_trim_spec(pcm@.len(), sample_rate) && (forall|k: int|
            0 <= k < trim_frames(pcm@, sample_rate).len() ==> !#[trigger] trim_voiced(trim_frames(pcm@, sample_rate), k))
            ==> r.0 == 0,
        forall|k: int|
            should_trim_spec(pcm@.len(), sample_rate) && #[trigger] is_first_voiced(trim_frames(pcm@, sample_rate), k)
                ==> r.0 == start_before(k * trim_frame_len(sample_rate), margin as int),
{
    let total = pcm.len();
    if !should_trim(total, sample_rate) {
        return (0, total);
    }
    let actual64 = trim_frame_size(sample_rate);
    assert(480 * sample_rate / 16_000 <= sample_rate) by (nonlinear_arith);
    let actual = actual64 as usize;
    let resample = sample_rate != 16_000;
    let ghost frames = trim_frames(pcm@, sample_rate);
    let ghost n: int = (total as int) / (actual as int);
    proof {
        vstd::arithmetic::div_mod::lemma_fundamental_div_mod(total as int, actual as int);
    }
    let mut det = WebRtcDetector::new(VadFrameDuration::Ms30);
    let mut first: Option<usize> = None;
    let mut frame_idx: usize = 0;
    let mut pos: usize = 0;
    assert(frames.take(0) =~= Seq::<Seq<i16>>::empty());
    while actual <= total - pos && first.is_none()
        invariant
            actual > 0,
            actual == 480 * sample_rate / 16_000,
            actual == trim_frame_len(sample_rate),
            resample == (sample_rate != 16_000),
            !resample ==> actual == 480,
            total == pcm@.len(),
            frames == trim_frames(pcm@, sample_rate),
            n == (total as int) / (actual as int),
            frames.len() == n,
            actual * n + (total as int) % (actual as int) == total,
            0 <= (total as int) % (actual as int) < actual,
            pos == frame_idx * actual,
            pos <= total,
            frame_idx <= n,
            first is None ==> det.history() == frames.take(frame_idx as int),
            first is None ==> forall|j: int| 0 <= j < frame_idx ==> !#[trigger] trim_voiced(frames, j),
            first matches Some(f) ==> f * actual + actual <= total && is_first_voiced(frames, f as int),
        decreases total - pos,
    {
        proof {
            assert(frame_idx + 1 <= n) by (nonlinear_arith)
                requires
                    frame_idx * actual + actual <= total,
                    actual * n + (total as int) % (actual as int) == total,
                    0 <= (total as int) % (actual as int) < actual,
                    actual > 0,
            ;
        }
        let frame = detection_frame(pcm, pos, actual, resample);
        assert(frame@ == frames[frame_idx as int]);
        let v = det.is_speech(frame.as_slice());
        proof {
            assert(frames.take(frame_idx + 1) =~= frames.take(frame_idx as int).push(frames[frame_idx as int]));
            assert(v == trim_voiced(frames, frame_idx as int));
        }
        if v {
            first = Some(frame_idx);
        }
        proof {
            assert((frame_idx + 1) * actual == frame_idx * actual + actual) by (nonlinear_arith);
        }
        frame_idx = frame_idx + 1;
        pos = pos + actual;
    }
    proof {
        if first is None {
            assert(frame_idx >= n) by (nonlinear_arith)
                requires
                    frame_idx * actual + actual > total,
                    actual * n + (total as int) % (actual as int) == total,
                    0 <= (total as int) % (actual as int) < actual,
                    actual > 0,
            ;
        }
    }
    let r = leading_trim_range(total, first, actual, margin);
    proof {
        if let Some(f) = first {
            assert forall|k: int| #[trigger] is_first_voiced(frames, k) implies k == f by {
                if k < f {
                    assert(!trim_voiced(frames, k));
                }
                if f < k {
                    assert(!trim_voiced(frames, f as int));
                }
            }
        }
    }
    r
}

/// Whether a recording is long enough to trim (see `should_trim`).
pub open spec fn should_trim_spec(total: nat, sample_rate: u32) -> bool {
    total >= 20 * sample_rate && 480 * sample_rate / 16_000 > 0
}

} // verus!
