//! Settings: the catalogue of speech models, the injection and output
//! choices, the configuration record with its defaults, and the paths derived
//! from it.
use vstd::prelude::*;
use crate::paths::{app_path, bytes_of, config_dir, data_local_dir, expand_home, expanded_dir, home_dir, home_relative, join_path, lossy_text, opt_bytes, path_join, path_text, path_under, strip_home_prefix};
use crate::text::{owned, push_str, same_text};

verus! {

/// Where model files are downloaded from.
pub const MODEL_BASE_URL: &'static str = "https://huggingface.co/ggerganov/whisper.cpp/resolve/main/";

/// The download address of a model file.
pub fn model_url(filename: &str) -> (r: String)
    ensures
        r@ == MODEL_BASE_URL@ + filename@,
{
    let mut r = owned(MODEL_BASE_URL);
    push_str(&mut r, filename);
    r
}

/// The model catalogue: (id, file name, approximate size in MB, description).
pub open spec fn model_table() -> Seq<(Seq<char>, Seq<char>, u64, Seq<char>)> {
    seq![
        ("tiny.en"@, "ggml-tiny.en.bin"@, 78u64, "Tiny (EN only) — fastest, ~78 MB"@),
        ("tiny"@, "ggml-tiny.bin"@, 78u64, "Tiny — fastest, multilingual, ~78 MB"@),
        ("base.en"@, "ggml-base.en.bin"@, 148u64, "Base (EN only) — recommended, ~148 MB"@),
        ("base"@, "ggml-base.bin"@, 148u64, "Base — multilingual, ~148 MB"@),
        ("small.en"@, "ggml-small.en.bin"@, 488u64, "Small (EN only) — better accuracy, ~488 MB"@),
        ("small"@, "ggml-small.bin"@, 488u64, "Small — multilingual, ~488 MB"@),
        ("medium.en"@, "ggml-medium.en.bin"@, 1533u64, "Medium (EN only) — high accuracy, ~1.5 GB"@),
        ("medium"@, "ggml-medium.bin"@, 1533u64, "Medium — multilingual, ~1.5 GB"@),
        ("large-v3-turbo"@, "ggml-large-v3-turbo.bin"@, 1620u64, "Large-v3-turbo — best, ~1.6 GB"@),
    ]
}

/// The model catalogue, in the order the settings list shows it.
pub fn models() -> (r: Vec<(&'static str, &'static str, u64, &'static str)>)
    ensures
        r@.len() == model_table().len(),
        forall|i: int|
            0 <= i < r@.len() ==> (#[trigger] r@[i]).0@ == model_table()[i].0 && r@[i].1@
                == model_table()[i].1 && r@[i].2 == model_table()[i].2 && r@[i].3@
                == model_table()[i].3,
{
    let r = vec![
        ("tiny.en", "ggml-tiny.en.bin", 78u64, "Tiny (EN only) — fastest, ~78 MB"),
        ("tiny", "ggml-tiny.bin", 78u64, "Tiny — fastest, multilingual, ~78 MB"),
        ("base.en", "ggml-base.en.bin", 148u64, "Base (EN only) — recommended, ~148 MB"),
        ("base", "ggml-base.bin", 148u64, "Base — multilingual, ~148 MB"),
        ("small.en", "ggml-small.en.bin", 488u64, "Small (EN only) — better accuracy, ~488 MB"),
        ("small", "ggml-small.bin", 488u64, "Small — multilingual, ~488 MB"),
        ("medium.en", "ggml-medium.en.bin", 1533u64, "Medium (EN only) — high accuracy, ~1.5 GB"),
        ("medium", "ggml-medium.bin", 1533u64, "Medium — multilingual, ~1.5 GB"),
        ("large-v3-turbo", "ggml-large-v3-turbo.bin", 1620u64, "Large-v3-turbo — best, ~1.6 GB"),
    ];
    r
}

/// The first position at or after `from` of the catalogue entry with id `id`.
pub open spec fn position_from(id: Seq<char>, from: nat) -> Option<nat>
    decreases model_table().len() - from,
{
    if from >= model_table().len() {
        None
    } else if model_table()[from as int].0 == id {
        Some(from)
    } else {
        position_from(id, from + 1)
    }
}

/// The position of the catalogue entry with id `id`, if there is one.
pub open spec fn model_position(id: Seq<char>) -> Option<nat> {
    position_from(id, 0)
}

/// The position of the catalogue entry with the given id, if there is one.
pub fn find_model(id: &str) -> (r: Option<usize>)
    ensures
        match r {
            Some(i) => model_position(id@) == Some(i as nat),
            None => model_position(id@) is None,
        },
{
    let table = models();
    let mut i: usize = 0;
    while i < table.len()
        invariant
            i <= table.len(),
            table@.len() == model_table().len(),
            forall|k: int| 0 <= k < table@.len() ==> (#[trigger] table@[k]).0@ == model_table()[k].0,
            position_from(id@, i as nat) == model_position(id@),
        decreases table.len() - i,
    {
        if same_text(table[i].0, id) {
            return Some(i);
        }
        i = i + 1;
    }
    None
}

/// The model file to use for a model id; unknown ids use the base English model.
pub open spec fn filename_for(id: Seq<char>) -> Seq<char> {
    match model_position(id) {
        Some(i) => model_table()[i as int].1,
        None => "ggml-base.en.bin"@,
    }
}

/// The model file to use for a model id; unknown ids use the base English model.
pub fn filename_for_model(id: &str) -> (r: &'static str)
    ensures
        r@ == filename_for(id@),
{
    let table = models();
    match find_model(id) {
        Some(i) => {
            proof {
                lemma_position_in_range(id@, 0);
            }
            table[i].1
        },
        None => "ggml-base.en.bin",
    }
}

/// A position found in the catalogue is inside it and holds the id looked for.
pub proof fn lemma_position_in_range(id: Seq<char>, from: nat)
    ensures
        position_from(id, from) matches Some(i) ==> from <= i < model_table().len()
            && model_table()[i as int].0 == id,
    decreases model_table().len() - from,
{
    if from < model_table().len() && model_table()[from as int].0 != id {
        lemma_position_in_range(id, from + 1);
    }
}

/// The file used for a catalogue id is `ggml-<id>.bin`; for an id outside
/// the catalogue it is the English base model's file.
pub proof fn lemma_filename_for_id(id: Seq<char>)
    ensures
        model_position(id) is Some ==> filename_for(id) == "ggml-"@ + id + ".bin"@,
        model_position(id) is None ==> filename_for(id) == "ggml-base.en.bin"@,
{
    lemma_position_in_range(id, 0);
    lemma_model_file_named_by_id();
}

/// The settings list index of a model id; an unknown id selects the first entry.
pub fn model_index(id: &str) -> (r: usize)
    ensures
        r == match model_position(id@) {
            Some(i) => i,
            None => 0,
        },
{
    match find_model(id) {
        Some(i) => i,
        None => 0,
    }
}

/// The model id at a settings list index, if the index is in the list.
pub fn model_id_at(index: i32) -> (r: Option<&'static str>)
    ensures
        match r {
            Some(id) => 0 <= index < model_table().len() && id@ == model_table()[index as int].0,
            None => !(0 <= index < model_table().len()),
        },
{
    if index < 0 {
        return None;
    }
    let table = models();
    let i = index as usize;
    if i < table.len() {
        Some(table[i].0)
    } else {
        None
    }
}

/// Each catalogue entry's file is named by its id: `ggml-<id>.bin`. So the
/// files of different ids differ, and an id without `.en` never gets an
/// English-only `.en` file.
pub proof fn lemma_model_file_named_by_id()
    ensures
        forall|i: int|
            0 <= i < model_table().len() ==> (#[trigger] model_table()[i]).1 == "ggml-"@
                + model_table()[i].0 + ".bin"@,
{
    reveal_strlit("ggml-");
    reveal_strlit(".bin");
    reveal_strlit("tiny.en");
    reveal_strlit("ggml-tiny.en.bin");
    reveal_strlit("tiny");
    reveal_strlit("ggml-tiny.bin");
    reveal_strlit("base.en");
    reveal_strlit("ggml-base.en.bin");
    reveal_strlit("base");
    reveal_strlit("ggml-base.bin");
    reveal_strlit("small.en");
    reveal_strlit("ggml-small.en.bin");
    reveal_strlit("small");
    reveal_strlit("ggml-small.bin");
    reveal_strlit("medium.en");
    reveal_strlit("ggml-medium.en.bin");
    reveal_strlit("medium");
    reveal_strlit("ggml-medium.bin");
    reveal_strlit("large-v3-turbo");
    reveal_strlit("ggml-large-v3-turbo.bin");
    let t = model_table();
    assert(t[0].1 =~= "ggml-"@ + t[0].0 + ".bin"@);
    assert(t[1].1 =~= "ggml-"@ + t[1].0 + ".bin"@);
    assert(t[2].1 =~= "ggml-"@ + t[2].0 + ".bin"@);
    assert(t[3].1 =~= "ggml-"@ + t[3].0 + ".bin"@);
    assert(t[4].1 =~= "ggml-"@ + t[4].0 + ".bin"@);
    assert(t[5].1 =~= "ggml-"@ + t[5].0 + ".bin"@);
    assert(t[6].1 =~= "ggml-"@ + t[6].0 + ".bin"@);
    assert(t[7].1 =~= "ggml-"@ + t[7].0 + ".bin"@);
    assert(t[8].1 =~= "ggml-"@ + t[8].0 + ".bin"@);
}

/// No two catalogue entries share an id.
pub proof fn lemma_model_ids_distinct()
    ensures
        forall|i: int, j: int|
            0 <= i < j < model_table().len() ==> model_table()[i].0 != model_table()[j].0,
{
    reveal_strlit("tiny.en");
    reveal_strlit("tiny");
    reveal_strlit("base.en");
    reveal_strlit("base");
    reveal_strlit("small.en");
    reveal_strlit("small");
    reveal_strlit("medium.en");
    reveal_strlit("medium");
    reveal_strlit("large-v3-turbo");
    let t = model_table();
    assert forall|i: int, j: int| 0 <= i < j < t.len() implies t[i].0 != t[j].0 by {
        if t[i].0 == t[j].0 {
            assert(t[i].0.len() == t[j].0.len());
            assert(t[i].0[0] == t[j].0[0]);
            assert(t[i].0[t[i].0.len() - 1] == t[j].0[t[j].0.len() - 1]);
        }
    }
}

proof fn lemma_position_of_entry(i: nat, from: nat)
    requires
        from <= i < model_table().len(),
        forall|a: int, b: int|
            0 <= a < b < model_table().len() ==> model_table()[a].0 != model_table()[b].0,
    ensures
        position_from(model_table()[i as int].0, from) == Some(i),
    decreases i - from,
{
    if from < i {
        lemma_position_of_entry(i, from + 1);
    }
}

/// Choosing a model in the settings list and reading back its index gives
/// the same entry: every catalogue id is found at its own position.
pub proof fn lemma_model_index_round_trip(i: nat)
    requires
        i < model_table().len(),
    ensures
        model_position(model_table()[i as int].0) == Some(i),
        filename_for(model_table()[i as int].0) == model_table()[i as int].1,
{
    lemma_model_ids_distinct();
    lemma_position_of_entry(i, 0);
}

/// How recognised text reaches the focused window.
#[derive(Clone, Copy, Debug, PartialEq, Eq, Structural)]
pub enum InjectMethod {
    /// `wtype`, the Wayland typing tool.
    Wtype,
    /// `ydotool`, which needs the `ydotoold` daemon.
    Ydotool,
}

impl Default for InjectMethod {
    fn default() -> (r: Self)
        ensures
            r == InjectMethod::Wtype,
    {
        InjectMethod::Wtype
    }
}

impl InjectMethod {
    /// The position of this method in the settings list.
    pub fn index(&self) -> (r: i32)
        ensures
            r == match *self {
                InjectMethod::Wtype => 0i32,
                InjectMethod::Ydotool => 1i32,
            },
    {
        match self {
            InjectMethod::Wtype => 0,
            InjectMethod::Ydotool => 1,
        }
    }

    /// The method at a settings list position; anything but 1 is `wtype`.
    pub fn from_index(index: i32) -> (r: Self)
        ensures
            r == (if index == 1 { InjectMethod::Ydotool } else { InjectMethod::Wtype }),
    {
        if index == 1 {
            InjectMethod::Ydotool
        } else {
            InjectMethod::Wtype
        }
    }
}

/// Where recognised text goes.
#[derive(Clone, Copy, Debug, PartialEq, Eq, Structural)]
pub enum OutputMode {
    /// Typed into the focused window.
    Inject,
    /// Appended to a text file.
    File,
}

impl Default for OutputMode {
    fn default() -> (r: Self)
        ensures
            r == OutputMode::Inject,
    {
        OutputMode::Inject
    }
}

impl OutputMode {
    /// The position of this mode in the settings list.
    pub fn index(&self) -> (r: i32)
        ensures
            r == match *self {
                OutputMode::Inject => 0i32,
                OutputMode::File => 1i32,
            },
    {
        match self {
            OutputMode::Inject => 0,
            OutputMode::File => 1,
        }
    }

    /// The mode at a settings list position; anything but 1 is injection.
    pub fn from_index(index: i32) -> (r: Self)
        ensures
            r == (if index == 1 { OutputMode::File } else { OutputMode::Inject }),
    {
        if index == 1 {
            OutputMode::File
        } else {
            OutputMode::Inject
        }
    }
}

/// Reading back the settings list position of a method gives the method.
pub proof fn lemma_inject_method_index_round_trip(m: InjectMethod)
    ensures
        (if (match m {
            InjectMethod::Wtype => 0i32,
            InjectMethod::Ydotool => 1i32,
        }) == 1 {
            InjectMethod::Ydotool
        } else {
            InjectMethod::Wtype
        }) == m,
{
}

/// Reading back the settings list position of an output mode gives the mode.
pub proof fn lemma_output_mode_index_round_trip(m: OutputMode)
    ensures
        (if (match m {
            OutputMode::Inject => 0i32,
            OutputMode::File => 1i32,
        }) == 1 {
            OutputMode::File
        } else {
            OutputMode::Inject
        }) == m,
{
}

/// The default model id.
pub fn default_model() -> (r: String)
    ensures
        r@ == "base.en"@,
{
    owned("base.en")
}

/// The default recognition language.
pub fn default_language() -> (r: String)
    ensures
        r@ == "en"@,
{
    owned("en")
}

/// The default number of recognition threads.
pub fn default_n_threads() -> (r: u32)
    ensures
        r == 4,
{
    4
}

/// The default silence, in milliseconds, that closes a speech segment.
pub fn default_silence_ms() -> (r: u64)
    ensures
        r == 600,
{
    600
}

/// The default delay, in milliseconds, before typing recognised text.
pub fn default_inject_delay_ms() -> (r: u64)
    ensures
        r == 0,
{
    0
}

/// The bit pattern (`f32::to_bits`) of the default detector threshold, 0.5.
pub const DEFAULT_VAD_THRESHOLD_BITS: u32 = 0x3F00_0000;

/// The default model directory below a per-user data directory, as text.
pub open spec fn models_dir_in(base: Option<Seq<u8>>) -> Seq<char> {
    lossy_text(app_path(base, bytes_of("voice"@), bytes_of("models"@)))
}

/// The default model directory: `voice/models` below the user's local data
/// directory, or below `.` when there is none, as text (bytes that are not
/// UTF-8 are replaced).
pub fn default_models_dir() -> (r: String)
    ensures
        exists|base: Option<Seq<u8>>| r@ == models_dir_in(base),
{
    let base = data_local_dir();
    let ghost b = opt_bytes(base);
    let p = path_under(base, "voice".as_bytes(), "models".as_bytes());
    let r = path_text(p.as_slice());
    assert(r@ == models_dir_in(b));
    r
}

/// The configuration file path below a per-user configuration directory.
pub open spec fn config_path_in(base: Option<Seq<u8>>) -> Seq<u8> {
    app_path(base, bytes_of("voice"@), bytes_of("config.toml"@))
}

/// The configuration file: `voice/config.toml` below the user's configuration
/// directory, or below `.` when there is none.
pub fn config_path() -> (r: Vec<u8>)
    ensures
        exists|base: Option<Seq<u8>>| r@ == config_path_in(base),
{
    let base = config_dir();
    let ghost b = opt_bytes(base);
    let r = path_under(base, "voice".as_bytes(), "config.toml".as_bytes());
    assert(r@ == config_path_in(b));
    r
}

/// The settings of the dictation tool.
#[derive(Clone, Debug)]
pub struct Config {
    /// Model id from the catalogue (e.g. "base.en").
    pub model: String,
    /// Directory where model files are stored; a leading `~` means the home directory.
    pub models_dir: String,
    /// Audio input device name, or empty for the system default.
    pub input_device: String,
    /// How to type text into the focused window.
    pub inject_method: InjectMethod,
    /// Recognition language code (e.g. "en", "auto").
    pub language: String,
    /// Number of CPU threads for recognition.
    pub n_threads: u32,
    /// Voice detector threshold in 0.0–1.0, kept as its `f32` bit pattern.
    pub vad_threshold_bits: u32,
    /// Milliseconds of silence that close a speech segment.
    pub silence_duration_ms: u64,
    /// Milliseconds to wait before typing recognised text.
    pub inject_delay_ms: u64,
    /// Where recognised text goes.
    pub output_mode: OutputMode,
    /// The file that receives text in file output mode.
    pub output_file: String,
}

impl Config {
    /// Every field except the model directory holds its default.
    pub open spec fn has_default_settings(&self) -> bool {
        &&& self.model@ == "base.en"@
        &&& self.input_device@ == Seq::<char>::empty()
        &&& self.inject_method == InjectMethod::Wtype
        &&& self.language@ == "en"@
        &&& self.n_threads == 4
        &&& self.vad_threshold_bits == DEFAULT_VAD_THRESHOLD_BITS
        &&& self.silence_duration_ms == 600
        &&& self.inject_delay_ms == 0
        &&& self.output_mode == OutputMode::Inject
        &&& self.output_file@ == Seq::<char>::empty()
    }

    /// The model file name for the configured model id.
    pub fn model_filename(&self) -> (r: &'static str)
        ensures
            r@ == filename_for(self.model@),
    {
        filename_for_model(self.model.as_str())
    }

    /// The model directory for a given home directory: a leading `~`
    /// component is replaced by `home` when there is one.
    pub fn models_dir_path_in(&self, home: Option<Vec<u8>>) -> (r: Vec<u8>)
        ensures
            r@ == expanded_dir(bytes_of(self.models_dir@), opt_bytes(home)),
    {
        expand_home(self.models_dir.as_str().as_bytes(), home)
    }

    /// The path of the configured model's file for a given home directory:
    /// the model directory for that home joined with the model file name.
    pub fn model_path_in(&self, home: Option<Vec<u8>>) -> (r: Vec<u8>)
        ensures
            r@ == path_join(
                expanded_dir(bytes_of(self.models_dir@), opt_bytes(home)),
                bytes_of(filename_for(self.model@)),
            ),
    {
        let dir = self.models_dir_path_in(home);
        join_path(dir.as_slice(), self.model_filename().as_bytes())
    }

    /// The home directory, read only when the model directory starts with `~`.
    fn home_for_models_dir(&self) -> (r: Option<Vec<u8>>)
        ensures
            home_relative(bytes_of(self.models_dir@)) is None ==> r is None,
    {
        match strip_home_prefix(self.models_dir.as_str().as_bytes()) {
            Some(_) => home_dir(),
            None => None,
        }
    }

    /// The model directory, with a leading `~` replaced by the user's home
    /// directory as it is when called.
    pub fn models_dir_path(&self) -> (r: Vec<u8>)
        ensures
            exists|home: Option<Seq<u8>>| r@ == expanded_dir(bytes_of(self.models_dir@), home),
            home_relative(bytes_of(self.models_dir@)) is None ==> r@ == bytes_of(self.models_dir@),
    {
        let home = self.home_for_models_dir();
        let ghost h = opt_bytes(home);
        let r = self.models_dir_path_in(home);
        assert(r@ == expanded_dir(bytes_of(self.models_dir@), h));
        r
    }

    /// The path of the configured model's file: the model directory, with the
    /// home directory as it is when called, joined with the model file name.
    pub fn model_path(&self) -> (r: Vec<u8>)
        ensures
            exists|home: Option<Seq<u8>>|
                r@ == path_join(
                    expanded_dir(bytes_of(self.models_dir@), home),
                    bytes_of(filename_for(self.model@)),
                ),
            home_relative(bytes_of(self.models_dir@)) is None ==> r@ == path_join(
                bytes_of(self.models_dir@),
                bytes_of(filename_for(self.model@)),
            ),
    {
        let home = self.home_for_models_dir();
        let ghost h = opt_bytes(home);
        let r = self.model_path_in(home);
        assert(r@ == path_join(
            expanded_dir(bytes_of(self.models_dir@), h),
            bytes_of(filename_for(self.model@)),
        ));
        r
    }
}

/// A model directory without a leading `~` does not depend on the home
/// directory, so for it `model_path` is `models_dir_path` joined with the
/// model file name whenever the two are called.
pub proof fn lemma_models_dir_without_home(
    config: Config,
    home: Option<Seq<u8>>,
    other: Option<Seq<u8>>,
)
    requires
        home_relative(bytes_of(config.models_dir@)) is None,
    ensures
        expanded_dir(bytes_of(config.models_dir@), home) == expanded_dir(
            bytes_of(config.models_dir@),
            other,
        ),
        expanded_dir(bytes_of(config.models_dir@), home) == bytes_of(config.models_dir@),
{
}

impl Default for Config {
    fn default() -> (r: Self)
        ensures
            r.has_default_settings(),
            exists|base: Option<Seq<u8>>| r.models_dir@ == models_dir_in(base),
    {
        Config {
            model: default_model(),
            models_dir: default_models_dir(),
            input_device: String::new(),
            inject_method: InjectMethod::default(),
            language: default_language(),
            n_threads: default_n_threads(),
            vad_threshold_bits: DEFAULT_VAD_THRESHOLD_BITS,
            silence_duration_ms: default_silence_ms(),
            inject_delay_ms: default_inject_delay_ms(),
            output_mode: OutputMode::default(),
            output_file: String::new(),
        }
    }
}

} // verus!
