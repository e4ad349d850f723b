//! The Silero neural voice-activity model: its fixed window, where its model
//! file lives, and whether neural detection can run in this build.
use vstd::prelude::*;
use vstd::string::StringExecFns;
use crate::paths::{join, thoth_dir};

verus! {

broadcast use vstd::string::group_string_axioms;

/// Samples per Silero window at 16 kHz; fixed by the model.
pub const WINDOW_SAMPLES: i32 = 512;

/// Sample rate the model is used at.
pub const SAMPLE_RATE: u32 = 16_000;

/// File name the model is stored under.
pub const MODEL_FILE_NAME: &'static str = "silero_vad.onnx";

/// Model id, naming its directory under `~/.thoth/models/`.
pub const MODEL_ID: &'static str = "silero-vad-v5";

/// Whether this build links an inference engine for the model. It does not:
/// the engine comes with the speech-recognition runtime, which this build
/// leaves out, so detection falls back to the WebRTC path.
pub const ENGINE_LINKED: bool = false;

/// The directory of a model under `home`.
pub open spec fn model_dir(home: Seq<char>, model_id: Seq<char>) -> Seq<char> {
    join(join(thoth_dir(home), "models"@), model_id)
}

/// The model file under `home`.
pub fn model_path_in(home: &str) -> (r: String)
    ensures
        r@ == join(model_dir(home@, MODEL_ID@), MODEL_FILE_NAME@),
{
    let dir = crate::paths::thoth_dir_in(home);
    let models = crate::paths::path_join(dir.as_str(), "models");
    let model = crate::paths::path_join(models.as_str(), MODEL_ID);
    crate::paths::path_join(model.as_str(), MODEL_FILE_NAME)
}

/// Where the Silero model is expected on disk, relative to the current
/// directory when there is no home directory.
pub fn model_path() -> (r: String)
    ensures
        exists|home: Seq<char>| r@ == join(model_dir(home, MODEL_ID@), MODEL_FILE_NAME@),
{
    let home = crate::paths::home_dir_or(".");
    model_path_in(home.as_str())
}

/// Neural detection can run: an engine is linked and the model is present.
pub open spec fn spec_available(engine_linked: bool, model_present: bool) -> bool {
    engine_linked && model_present
}

/// Whether neural detection can run, given whether an engine is linked and
/// whether the model file is present.
pub fn is_available_for(engine_linked: bool, model_present: bool) -> (r: bool)
    ensures
        r == spec_available(engine_linked, model_present),
{
    engine_linked && model_present
}

/// The reason given when no engine is linked.
pub open spec fn no_engine_reason() -> Seq<char> {
    "this build has no ONNX runtime (built --no-default-features); falling back to WebRTC VAD"@
}

/// The reason given when the model file is missing.
pub open spec fn missing_model_reason(path: Seq<char>) -> Seq<char> {
    "Silero model not downloaded to "@ + path + "; falling back to WebRTC VAD"@
}

/// Why neural detection cannot run, if it cannot: no engine first, then a
/// missing model file (named by `model_path`).
pub fn unavailable_reason_for(engine_linked: bool, model_present: bool, model_path: &str) -> (r: Option<String>)
    ensures
        !engine_linked ==> (r matches Some(m) && m@ == no_engine_reason()),
        engine_linked && !model_present ==> (r matches Some(m) && m@ == missing_model_reason(model_path@)),
        engine_linked && model_present ==> r is None,
        r is None <==> spec_available(engine_linked, model_present),
{
    if !engine_linked {
        return Some(
            String::from_str(
                "this build has no ONNX runtime (built --no-default-features); falling back to WebRTC VAD",
            ),
        );
    }
    if !model_present {
        proof {
            reveal_strlit("Silero model not downloaded to ");
            reveal_strlit("; falling back to WebRTC VAD");
        }
        let mut m = String::from_str("Silero model not downloaded to ");
        m.append(model_path);
        m.append("; falling back to WebRTC VAD");
        return Some(m);
    }
    None
}

/// Whether neural detection can run in this build. No engine is linked, so
/// it cannot, and the model file is not looked for.
pub fn is_available() -> (r: bool)
    ensures
        r == spec_available(ENGINE_LINKED, false),
        !r,
{
    is_available_for(ENGINE_LINKED, false)
}

/// Why neural detection cannot run in this build.
pub fn unavailable_reason() -> (r: Option<String>)
    ensures
        r matches Some(m) && m@ == no_engine_reason(),
{
    let path = model_path();
    unavailable_reason_for(ENGINE_LINKED, false, path.as_str())
}

} // verus!
