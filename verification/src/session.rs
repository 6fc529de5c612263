//! Decisions of the dictation session around the recogniser: choosing the
//! input device, checking what a session needs before it starts, reporting
//! download progress and reading the answer of a file picker.
use vstd::prelude::*;
use crate::config::{Config, InjectMethod, OutputMode};
use crate::text::{decimal, owned, push_decimal, push_str, same_text, trim, trimmed};

verus! {

/// The name shown for the system's default input device.
pub open spec fn default_device_name() -> Seq<char> {
    "Default"@
}

/// The device list shown in the settings: the default device first, then
/// the devices found, in order.
pub fn device_names(found: Vec<String>) -> (r: Vec<String>)
    ensures
        r@.len() == found@.len() + 1,
        r@[0]@ == default_device_name(),
        forall|i: int| 0 <= i < found@.len() ==> #[trigger] r@[i + 1] == found@[i],
{
    let mut r: Vec<String> = Vec::new();
    r.push(owned("Default"));
    let mut found = found;
    r.append(&mut found);
    r
}

/// A configured device name means the system default when it is empty or
/// reads "Default".
pub open spec fn means_default_device(name: Seq<char>) -> bool {
    name.len() == 0 || name == default_device_name()
}

/// Whether a configured device name means the system default.
pub fn is_default_device(name: &str) -> (r: bool)
    ensures
        r == means_default_device(name@),
{
    name.is_empty() || same_text(name, "Default")
}

/// The first position at or after `from` in `names` that holds `name`.
pub open spec fn first_position(names: Seq<String>, name: Seq<char>, from: int) -> Option<int>
    decreases names.len() - from,
{
    if from < 0 || from >= names.len() {
        None
    } else if names[from]@ == name {
        Some(from)
    } else {
        first_position(names, name, from + 1)
    }
}

/// The first position in `names` that holds `name`.
pub fn position_of(names: &Vec<String>, name: &str) -> (r: Option<usize>)
    ensures
        match r {
            Some(i) => first_position(names@, name@, 0) == Some(i as int),
            None => first_position(names@, name@, 0) is None,
        },
{
    let mut i: usize = 0;
    while i < names.len()
        invariant
            i <= names.len(),
            first_position(names@, name@, i as int) == first_position(names@, name@, 0),
        decreases names.len() - i,
    {
        if same_text(names[i].as_str(), name) {
            return Some(i);
        }
        i = i + 1;
    }
    None
}

/// A position found by `first_position` is in range and holds the name.
pub proof fn lemma_first_position(names: Seq<String>, name: Seq<char>, from: int)
    requires
        0 <= from,
    ensures
        first_position(names, name, from) matches Some(i) ==> from <= i < names.len()
            && names[i]@ == name,
        first_position(names, name, from) is None ==> forall|k: int|
            from <= k < names.len() ==> #[trigger] names[k]@ != name,
    decreases names.len() - from,
{
    if from < names.len() && names[from]@ != name {
        lemma_first_position(names, name, from + 1);
    }
}

/// Which input device to capture from.
#[derive(Clone, Copy, Debug, PartialEq, Eq, Structural)]
pub enum DeviceChoice {
    /// The system default input device.
    SystemDefault,
    /// The available device at this position.
    Listed(usize),
    /// No available device has the configured name.
    Missing,
}

/// Which input device a configured name selects among the available ones:
/// the system default for an empty name or "Default", otherwise the first
/// device with that name.
pub fn device_choice(name: &str, available: &Vec<String>) -> (r: DeviceChoice)
    ensures
        r == (if means_default_device(name@) {
            DeviceChoice::SystemDefault
        } else {
            match first_position(available@, name@, 0) {
                Some(i) => DeviceChoice::Listed(i as usize),
                None => DeviceChoice::Missing,
            }
        }),
{
    if is_default_device(name) {
        return DeviceChoice::SystemDefault;
    }
    proof {
        lemma_first_position(available@, name@, 0);
    }
    match position_of(available, name) {
        Some(i) => DeviceChoice::Listed(i),
        None => DeviceChoice::Missing,
    }
}

/// The settings list index of the configured device: 0 (the default entry)
/// for the default device or a device that is not listed.
pub fn device_index(configured: &str, devices: &Vec<String>) -> (r: usize)
    ensures
        r == (if means_default_device(configured@) {
            0
        } else {
            match first_position(devices@, configured@, 0) {
                Some(i) => i as usize,
                None => 0,
            }
        }),
{
    if is_default_device(configured) {
        return 0;
    }
    proof {
        lemma_first_position(devices@, configured@, 0);
    }
    match position_of(devices, configured) {
        Some(i) => i,
        None => 0,
    }
}

/// The device name stored in the settings for a name chosen in the list:
/// the default entry is stored as the empty name.
pub open spec fn device_setting_for(chosen: Seq<char>) -> Seq<char> {
    if chosen == default_device_name() {
        Seq::empty()
    } else {
        chosen
    }
}

/// The device name stored in the settings for a name chosen in the list.
pub fn device_setting(chosen: &str) -> (r: String)
    ensures
        r@ == device_setting_for(chosen@),
{
    if same_text(chosen, "Default") {
        String::new()
    } else {
        owned(chosen)
    }
}

/// Choosing a device in the settings list and reading back its index gives
/// the same entry, for a list that starts with the default entry and names
/// each device once, by a name that is not empty.
pub proof fn lemma_device_round_trip(devices: Seq<String>, i: int)
    requires
        0 <= i < devices.len(),
        devices[0]@ == default_device_name(),
        forall|k: int| 0 < k < devices.len() ==> #[trigger] devices[k]@.len() > 0,
        forall|a: int, b: int| 0 <= a < b < devices.len() ==> devices[a]@ != devices[b]@,
    ensures
        ({
            let stored = device_setting_for(devices[i]@);
            (if means_default_device(stored) {
                0
            } else {
                match first_position(devices, stored, 0) {
                    Some(k) => k,
                    None => 0,
                }
            }) == i
        }),
{
    lemma_first_position(devices, devices[i]@, 0);
    if i > 0 {
        assert(devices[i]@ != default_device_name());
        lemma_first_position(devices, devices[i]@, 0);
        match first_position(devices, devices[i]@, 0) {
            Some(k) => {
                if k != i {
                    assert(devices[k]@ == devices[i]@);
                }
            },
            None => {
                assert(devices[i]@ != devices[i]@);
            },
        }
    }
}

/// What stands in the way of starting a dictation session.
#[derive(Clone, Copy, Debug, PartialEq, Eq, Structural)]
pub enum StartDecision {
    /// The configured model has not been downloaded.
    ModelMissing,
    /// The injection tool is not installed.
    ToolMissing(InjectMethod),
    /// File output is chosen but no file is.
    NoOutputFile,
    /// Nothing: the session can start.
    Start,
}

/// Whether the `ydotoold` daemon must be started before a session: when the
/// model is there and text is typed with `ydotool`.
pub fn needs_daemon(model_exists: bool, config: &Config) -> (r: bool)
    ensures
        r == (model_exists && config.output_mode == OutputMode::Inject && config.inject_method
            == InjectMethod::Ydotool),
{
    model_exists && config.output_mode == OutputMode::Inject && config.inject_method
        == InjectMethod::Ydotool
}

/// Whether a session may start: the model must be downloaded; then, when
/// typing text, the injection tool must be installed, and when writing to a
/// file, a file must be chosen.
pub fn start_decision(model_exists: bool, config: &Config, tool_found: bool) -> (r: StartDecision)
    ensures
        r == (if !model_exists {
            StartDecision::ModelMissing
        } else {
            match config.output_mode {
                OutputMode::Inject => if tool_found {
                    StartDecision::Start
                } else {
                    StartDecision::ToolMissing(config.inject_method)
                },
                OutputMode::File => if config.output_file@.len() == 0 {
                    StartDecision::NoOutputFile
                } else {
                    StartDecision::Start
                },
            }
        }),
{
    if !model_exists {
        return StartDecision::ModelMissing;
    }
    match config.output_mode {
        OutputMode::Inject => if tool_found {
            StartDecision::Start
        } else {
            StartDecision::ToolMissing(config.inject_method)
        },
        OutputMode::File => if config.output_file.as_str().is_empty() {
            StartDecision::NoOutputFile
        } else {
            StartDecision::Start
        },
    }
}

/// Bytes in a megabyte, as download progress counts them.
pub const BYTES_PER_MB: u64 = 1_048_576;

/// The progress line of a download: whole megabytes done, and of how many
/// when the size is known, e.g. "12/148 MB" or "12 MB".
pub open spec fn download_status_text(done: u64, total: Option<u64>) -> Seq<char> {
    match total {
        Some(t) => decimal((done / BYTES_PER_MB) as nat) + seq!['/'] + decimal(
            (t / BYTES_PER_MB) as nat,
        ) + " MB"@,
        None => decimal((done / BYTES_PER_MB) as nat) + " MB"@,
    }
}

/// The progress line of a download.
pub fn download_status(done: u64, total: Option<u64>) -> (r: String)
    ensures
        r@ == download_status_text(done, total),
{
    let mut r = String::new();
    push_decimal(&mut r, done / BYTES_PER_MB);
    match total {
        Some(t) => {
            crate::text::push_char(&mut r, '/');
            push_decimal(&mut r, t / BYTES_PER_MB);
        },
        None => {},
    }
    push_str(&mut r, " MB");
    assert(r@ =~= download_status_text(done, total));
    r
}

/// The file chosen in a file picker: its trimmed output, when the picker
/// succeeded and the output is not blank.
pub open spec fn picked_file(success: bool, output: Seq<char>) -> Option<Seq<char>> {
    if success && trim(output).len() > 0 {
        Some(trim(output))
    } else {
        None
    }
}

/// The file chosen in a file picker, from its exit status and output.
pub fn dialog_choice(success: bool, output: &str) -> (r: Option<String>)
    ensures
        match r {
            Some(p) => picked_file(success, output@) == Some(p@),
            None => picked_file(success, output@) is None,
        },
{
    if !success {
        return None;
    }
    let t = trimmed(output);
    if t.as_str().is_empty() {
        None
    } else {
        Some(t)
    }
}

} // verus!
