//! The recorder's lifecycle and the choice of input device.
//!
//! The input stream is kept open ("warm") between recordings so that
//! starting one is only a flag flip: a recorder is cold, warm, or armed
//! (warm and capturing). Which device records is the configured one when it
//! is present; otherwise the system default, except that a Bluetooth default
//! gives way to the built-in microphone when there is one.
use vstd::prelude::*;
use vstd::string::StringExecFns;

verus! {

broadcast use vstd::string::group_string_axioms;

/// Error text for arming a cold recorder.
pub open spec fn not_warm_message() -> Seq<char> {
    "Cannot arm: stream is not warm. Call warm_up() first."@
}

/// Error text for arming an armed recorder.
pub open spec fn already_armed_message() -> Seq<char> {
    "Already armed / recording in progress"@
}

/// Error text for disarming a recorder that is not armed.
pub open spec fn not_armed_message() -> Seq<char> {
    "Not armed / no recording in progress"@
}

/// Error text for starting a recording on a warm recorder through the
/// single-call start.
pub open spec fn already_recording_message() -> Seq<char> {
    "Recording already in progress"@
}

/// Where a recorder is in its lifecycle: whether its stream is open and
/// whether it is capturing.
pub struct RecorderLifecycle {
    warm: bool,
    armed: bool,
}

impl RecorderLifecycle {
    /// The stream is open.
    pub closed spec fn spec_warm(&self) -> bool {
        self.warm
    }

    /// A recording is being captured.
    pub closed spec fn spec_armed(&self) -> bool {
        self.armed
    }

    /// Only an open stream can capture.
    pub closed spec fn wf(&self) -> bool {
        self.armed ==> self.warm
    }

    /// A cold recorder.
    pub fn new() -> (r: Self)
        ensures
            r.wf(),
            !r.spec_warm(),
            !r.spec_armed(),
    {
        RecorderLifecycle { warm: false, armed: false }
    }

    /// Whether a recording is being captured.
    pub fn is_recording(&self) -> (r: bool)
        ensures
            r == self.spec_armed(),
    {
        self.armed
    }

    /// Whether the stream is open.
    pub fn is_warm(&self) -> (r: bool)
        ensures
            r == self.spec_warm(),
    {
        self.warm
    }

    /// Whether warming up must open a stream: not when one is already open,
    /// which makes warming up a no-op.
    pub fn needs_stream(&self) -> (r: bool)
        ensures
            r == !self.spec_warm(),
    {
        !self.warm
    }

    /// Record that the stream was opened.
    pub fn stream_opened(&mut self)
        requires
            old(self).wf(),
        ensures
            final(self).wf(),
            final(self).spec_warm(),
            final(self).spec_armed() == old(self).spec_armed(),
    {
        self.warm = true;
    }

    /// Start capturing: only a warm recorder that is not already capturing
    /// can be armed.
    pub fn arm(&mut self) -> (r: Result<(), String>)
        requires
            old(self).wf(),
        ensures
            final(self).wf(),
            final(self).spec_warm() == old(self).spec_warm(),
            !old(self).spec_warm() ==> (r matches Err(e) && e@ == not_warm_message() && final(self).spec_armed()
                == old(self).spec_armed()),
            old(self).spec_warm() && old(self).spec_armed() ==> (r matches Err(e) && e@ == already_armed_message()
                && final(self).spec_armed()),
            old(self).spec_warm() && !old(self).spec_armed() ==> (r is Ok && final(self).spec_armed()),
    {
        if !self.warm {
            return Err(String::from_str("Cannot arm: stream is not warm. Call warm_up() first."));
        }
        if self.armed {
            return Err(String::from_str("Already armed / recording in progress"));
        }
        self.armed = true;
        Ok(())
    }

    /// Stop capturing; the stream stays open. Refused when nothing is being
    /// captured.
    pub fn disarm(&mut self) -> (r: Result<(), String>)
        requires
            old(self).wf(),
        ensures
            final(self).wf(),
            final(self).spec_warm() == old(self).spec_warm(),
            !final(self).spec_armed(),
            old(self).spec_armed() ==> r is Ok,
            !old(self).spec_armed() ==> (r matches Err(e) && e@ == not_armed_message()),
    {
        if !self.armed {
            return Err(String::from_str("Not armed / no recording in progress"));
        }
        self.armed = false;
        Ok(())
    }

    /// Close the stream, unless a recording is being captured: then nothing
    /// changes and the result is `false`.
    pub fn cool_down(&mut self) -> (closed: bool)
        requires
            old(self).wf(),
        ensures
            final(self).wf(),
            closed == !old(self).spec_armed(),
            closed ==> !final(self).spec_warm() && !final(self).spec_armed(),
            !closed ==> final(self).spec_warm() == old(self).spec_warm() && final(self).spec_armed(),
    {
        if self.armed {
            return false;
        }
        self.warm = false;
        true
    }

    /// Whether the single-call start may open a stream: not when one is
    /// already open.
    pub fn check_start(&self) -> (r: Result<(), String>)
        ensures
            self.spec_warm() ==> (r matches Err(e) && e@ == already_recording_message()),
            !self.spec_warm() ==> r is Ok,
    {
        if self.warm {
            return Err(String::from_str("Recording already in progress"));
        }
        Ok(())
    }
}

/// Which input device records.
#[derive(Debug, Clone, Copy, PartialEq, Eq, Structural)]
pub enum DeviceChoice {
    /// The configured device.
    Configured,
    /// The built-in microphone, in place of a Bluetooth default.
    BuiltIn,
    /// The system default.
    Default,
}

/// Choose the recording device: the configured one when it was found;
/// otherwise the built-in microphone when the default is Bluetooth and a
/// built-in one was found (so a headset is not forced into its low-quality
/// call mode); otherwise the default.
pub fn choose_recording_device(configured_found: bool, default_is_bluetooth: bool, builtin_found: bool) -> (r:
    DeviceChoice)
    ensures
        configured_found ==> r == DeviceChoice::Configured,
        !configured_found && default_is_bluetooth && builtin_found ==> r == DeviceChoice::BuiltIn,
        !configured_found && !(default_is_bluetooth && builtin_found) ==> r == DeviceChoice::Default,
{
    if configured_found {
        DeviceChoice::Configured
    } else if default_is_bluetooth && builtin_found {
        DeviceChoice::BuiltIn
    } else {
        DeviceChoice::Default
    }
}

/// The configured device last reported missing, so the user is told once
/// per distinct missing device rather than on every recording.
pub struct FallbackNotice {
    /// The id last reported.
    pub last: Option<String>,
}

impl FallbackNotice {
    /// Nothing reported yet.
    pub fn new() -> (r: Self)
        ensures
            r.last is None,
    {
        FallbackNotice { last: None }
    }

    /// Whether to tell the user that `missing_id` is unavailable: not when it
    /// was the last one reported. Afterwards it is the last one reported.
    pub fn should_notify(&mut self, missing_id: &str) -> (r: bool)
        ensures
            r == !(old(self).last matches Some(l) && l@ == missing_id@),
            final(self).last matches Some(l) && l@ == missing_id@,
    {
        let same = match &self.last {
            Some(l) => crate::text::str_eq(l.as_str(), missing_id),
            None => false,
        };
        if same {
            return false;
        }
        self.last = Some(String::from_str(missing_id));
        true
    }
}

/// An input device as listed to the user.
#[derive(Debug, Clone)]
pub struct AudioDevice {
    /// Stable identifier of the device.
    pub id: String,
    /// Human-readable name.
    pub name: String,
    /// Whether it is the system default input device.
    pub is_default: bool,
}

impl AudioDevice {
    /// A listed device, marked as the default when its id is the default
    /// device's id.
    pub fn listed(id: String, name: String, default_id: Option<&str>) -> (r: Self)
        ensures
            r.id@ == id@,
            r.name@ == name@,
            r.is_default == (default_id matches Some(d) && d@ == id@),
    {
        let is_default = match default_id {
            Some(d) => crate::text::str_eq(d, id.as_str()),
            None => false,
        };
        AudioDevice { id, name, is_default }
    }
}

/// The position of the first device whose name is `wanted`, if any: how the
/// built-in microphone is found among the input devices.
pub fn find_device_named(names: &Vec<String>, wanted: &str) -> (r: Option<usize>)
    ensures
        match r {
            Some(k) => k < names@.len() && names@[k as int]@ == wanted@ && forall|j: int|
                0 <= j < k ==> #[trigger] names@[j]@ != wanted@,
            None => forall|j: int| 0 <= j < names@.len() ==> #[trigger] names@[j]@ != wanted@,
        },
{
    let mut i: usize = 0;
    while i < names.len()
        invariant
            i <= names@.len(),
            forall|j: int| 0 <= j < i ==> #[trigger] names@[j]@ != wanted@,
        decreases names@.len() - i,
    {
        if crate::text::str_eq(names[i].as_str(), wanted) {
            return Some(i);
        }
        i = i + 1;
    }
    None
}

} // verus!
