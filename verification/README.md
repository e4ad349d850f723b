# thoth

The core of a voice-dictation desktop app, written in Verus. The functions
in `src/` are verified against their `requires`/`ensures` contracts, except
the small trusted wrappers around outside crates and std, whose contracts
Verus takes on trust (each says so in its doc comment).

- `src/` — the verified library: the speech gate and voice-activity
  smoothing, the audio ring buffer, silence trimming, the
  personal dictionary and canonical-term snapping, alias suggestions,
  prompt templates and their rendering, the enhancement client's request and
  retry rules, configuration guards, the control API's token, path and host
  checks, the transcription job registry, clipboard history, changelog
  parsing, insights (streaks, histograms) and the trash/restore plans for
  recordings. Calls into outside crates (regex, chrono, uuid, getrandom,
  subtle, rphonetic, unicode-normalization, webrtc-vad, dirs) go through
  those wrappers.
- `tests/` — tests run against the compiled library with the real outside
  crates linked.
- `app/` — the unverified edge: JSON files and global state, serde copies of
  the library's types, and the floating-point audio and similarity code.
