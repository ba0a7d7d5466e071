//! Persistent settings and the well-known paths the application owns.
//!
//! Everything lives under one directory. Every setting has a default, so a
//! partial or corrupt file still loads: losing settings is never a reason to
//! refuse to start.

use crate::path::{
    a_joined_path_ends_in_the_name, is_plain_name, join_head, join_path, joined_path,
    joining_keeps_names_apart,
};
use crate::router::RouteRule;
use crate::text::{a_part_occurs, ends_with, occurs, opt_str, starts_with};
use vstd::prelude::*;
use vstd::string::*;

verus! {

/// Directory name under the base directory.
pub const APP_DIR_NAME: &'static str = "FxTrumpet";

/// Default inter-stream buffer.
pub const DEFAULT_BUFFER_MS: u32 = 120;

/// Settings persisted across runs.
#[derive(Debug, PartialEq, Eq)]
pub struct Config {
    /// Master switch, mirroring the tray "Enabled" item.
    pub enabled: bool,
    /// Whether the app registers itself to start with Windows.
    pub autostart: bool,
    /// Endpoint id captured for replay. `None` means "decide at startup":
    /// prefer the virtual card, fall back to the system default.
    pub source_device_id: Option<String>,
    /// Where processed audio is rendered. `None` means "the device that was
    /// the system default before the takeover".
    pub sink_device_id: Option<String>,
    /// Whether to point the system's default output at the virtual sound card
    /// while running, and to put it back on exit.
    pub take_over_default: bool,
    /// The endpoint the takeover displaced.
    ///
    /// Written before the switch and cleared only after a clean restore, so a
    /// non-empty value on start means a previous run was killed while holding
    /// the default output.
    pub previous_default_id: Option<String>,
    /// Path of the preset to activate on startup.
    pub active_preset: Option<String>,
    /// EQ resolution handed to the engine. One of 5/10/15/20/31.
    pub num_bands: usize,
    /// Inter-stream buffer depth in milliseconds.
    pub buffer_ms: u32,
    /// When the two ends disagree on sample rate, resample instead of
    /// bypassing.
    pub resample_on_rate_mismatch: bool,
    /// Skip DSP entirely for mono endpoints.
    pub bypass_mono_devices: bool,
    /// Log verbosity: "off" | "error" | "warn" | "info" | "debug" | "trace".
    pub log_level: String,
    /// Interface language: "auto" | "zh" | "en".
    pub language: String,
    /// Per-application output routing.
    pub routes: Vec<RouteRule>,
}

/// Whether a configuration holds the defaults.
pub open spec fn is_default_config(c: Config) -> bool {
    &&& c.enabled
    &&& c.autostart
    &&& c.source_device_id is None
    &&& c.sink_device_id is None
    &&& c.take_over_default
    &&& c.previous_default_id is None
    &&& c.active_preset is None
    &&& c.num_bands == 10
    &&& c.buffer_ms == 120
    &&& c.resample_on_rate_mismatch
    &&& c.bypass_mono_devices
    &&& c.log_level@ == "info"@
    &&& c.language@ == "auto"@
    &&& c.routes@.len() == 0
}

impl Default for Config {
    fn default() -> (r: Self)
        ensures
            is_default_config(r),
    {
        Config {
            enabled: true,
            autostart: true,
            source_device_id: None,
            sink_device_id: None,
            take_over_default: true,
            previous_default_id: None,
            active_preset: None,
            num_bands: 10,
            buffer_ms: DEFAULT_BUFFER_MS,
            resample_on_rate_mismatch: true,
            bypass_mono_devices: true,
            log_level: "info".to_owned(),
            language: "auto".to_owned(),
            routes: Vec::new(),
        }
    }
}

/// What became of reading the configuration file.
#[derive(Debug)]
pub enum ConfigFile {
    /// It was read and understood.
    Parsed(Config),
    /// It was read, but is not valid; with the parser's message.
    Invalid(String),
    /// There is none.
    Missing,
    /// It is there and could not be read; with the system's message.
    Unreadable(String),
}

/// What is said of a file that could not be used.
pub open spec fn load_problem(path: Seq<char>, file: ConfigFile) -> Option<Seq<char>> {
    match file {
        ConfigFile::Parsed(_) => None,
        ConfigFile::Missing => None,
        ConfigFile::Invalid(err) => Some(
            "config at "@ + path + " is not valid JSON: "@ + err@,
        ),
        ConfigFile::Unreadable(err) => Some(
            "config at "@ + path + " could not be read: "@ + err@,
        ),
    }
}

fn problem(path: &str, what: &str, err: &str) -> (r: String)
    ensures
        r@ == "config at "@ + path@ + what@ + err@,
{
    let mut out: String = "config at ".to_owned();
    out.append(path);
    out.append(what);
    out.append(err);
    out
}

/// Whether `config` is what is used of a file: what it holds, or the defaults.
pub open spec fn is_loaded(config: Config, file: ConfigFile) -> bool {
    match file {
        ConfigFile::Parsed(read) => config == read,
        _ => is_default_config(config),
    }
}

impl Config {
    /// Takes the configuration that was read, falling back to defaults for
    /// anything unusable.
    ///
    /// Returns the config and, when a file existed but could not be used, what
    /// was wrong with it. Never fails: an unstartable app is worse than a
    /// defaulted one.
    pub fn load_or_default(path: &str, file: ConfigFile) -> (r: (Config, Option<String>))
        ensures
            is_loaded(r.0, file),
            (match r.1 {
                Some(message) => load_problem(path@, file) == Some(message@),
                None => load_problem(path@, file) is None,
            }),
    {
        match file {
            ConfigFile::Parsed(config) => (config, None),
            ConfigFile::Missing => (Config::default(), None),
            ConfigFile::Invalid(err) => (
                Config::default(),
                Some(problem(path, " is not valid JSON: ", err.as_str())),
            ),
            ConfigFile::Unreadable(err) => (
                Config::default(),
                Some(problem(path, " could not be read: ", err.as_str())),
            ),
        }
    }

    pub fn load(path: &str, file: ConfigFile) -> (r: Config)
        ensures
            is_loaded(r, file),
    {
        Config::load_or_default(path, file).0
    }

    /// Takes note of whether a rescue changed the routing. The marker has then
    /// been honoured: leaving it set would make every later start repeat a
    /// recovery that is no longer owed. Tells whether there is something to
    /// save.
    pub fn rescued(&mut self, changed: bool) -> (r: bool)
        ensures
            r == changed,
            *final(self) == (if changed {
                Config { previous_default_id: None, ..*old(self) }
            } else {
                *old(self)
            }),
    {
        if changed {
            self.previous_default_id = None;
        }
        changed
    }
}

/// The application's directory: under the base directory, or under the current
/// one if there is no base.
pub open spec fn app_dir(base: Option<Seq<char>>) -> Seq<char> {
    match base {
        Some(dir) => joined_path(dir, APP_DIR_NAME@),
        None => APP_DIR_NAME@,
    }
}

/// The application's directory.
pub fn app_data_dir(base: Option<&str>) -> (r: String)
    ensures
        r@ == app_dir(opt_str(base)),
{
    match base {
        Some(dir) => join_path(dir, APP_DIR_NAME),
        None => APP_DIR_NAME.to_owned(),
    }
}

/// The path of one of the application's own files.
pub open spec fn own_path(base: Option<Seq<char>>, name: Seq<char>) -> Seq<char> {
    joined_path(app_dir(base), name)
}

/// Where the settings are.
pub fn config_path(base: Option<&str>) -> (r: String)
    ensures
        r@ == own_path(opt_str(base), "config.json"@),
{
    let dir = app_data_dir(base);
    join_path(dir.as_str(), "config.json")
}

/// Where bundled presets are unpacked and where the user's own are picked up.
pub fn presets_dir(base: Option<&str>) -> (r: String)
    ensures
        r@ == own_path(opt_str(base), "presets"@),
{
    let dir = app_data_dir(base);
    join_path(dir.as_str(), "presets")
}

/// Where the log is.
pub fn log_path(base: Option<&str>) -> (r: String)
    ensures
        r@ == own_path(opt_str(base), "fxtrumpet.log"@),
{
    let dir = app_data_dir(base);
    join_path(dir.as_str(), "fxtrumpet.log")
}

/// One step of saving the settings.
#[derive(Debug, PartialEq, Eq)]
pub enum SaveStep {
    /// Make sure that this directory exists.
    CreateDirectory(String),
    /// Write the settings to this file.
    Write(String),
    /// Remove this file, if it is there.
    Remove(String),
    /// Rename the first file to the second.
    Rename(String, String),
}

/// Whether `steps` saves the settings through a temporary file that takes the
/// place of the old one only once it is complete.
pub open spec fn saves(steps: Seq<SaveStep>, base: Option<Seq<char>>) -> bool {
    let path = joined_path(app_dir(base), "config.json"@);
    let temp = joined_path(app_dir(base), "config.json.tmp"@);
    &&& steps.len() == 4
    &&& steps[0] is CreateDirectory && steps[0]->CreateDirectory_0@ == app_dir(base)
    &&& steps[1] is Write && steps[1]->Write_0@ == temp
    &&& steps[2] is Remove && steps[2]->Remove_0@ == path
    &&& steps[3] is Rename && steps[3]->Rename_0@ == temp && steps[3]->Rename_1@ == path
}

impl Config {
    /// The steps that write the settings, creating the directory if needed.
    ///
    /// They are written to a temporary file that is then renamed, so a crash
    /// in the middle cannot leave half of them behind.
    pub fn save(base: Option<&str>) -> (r: Vec<SaveStep>)
        ensures
            saves(r@, opt_str(base)),
    {
        let dir = app_data_dir(base);
        let temp = join_path(dir.as_str(), "config.json.tmp");
        let path = config_path(base);
        let mut steps: Vec<SaveStep> = Vec::new();
        steps.push(SaveStep::CreateDirectory(dir));
        steps.push(SaveStep::Write(temp.clone()));
        steps.push(SaveStep::Remove(path.clone()));
        steps.push(SaveStep::Rename(temp, path));
        steps
    }
}

/// The file that is written never is the one that holds the settings.
pub proof fn saving_spares_the_settings(base: Option<Seq<char>>)
    ensures
        joined_path(app_dir(base), "config.json.tmp"@) != joined_path(
            app_dir(base),
            "config.json"@,
        ),
{
    let temp = "config.json.tmp"@;
    let kept = "config.json"@;
    assert(is_plain_name(temp) && is_plain_name(kept) && temp.len() != kept.len()) by {
        reveal_strlit("config.json.tmp");
        reveal_strlit("config.json");
    }
    joining_keeps_names_apart(app_dir(base), temp, kept);
}

/// A file that was understood is used as it stands and nothing is said of it; a
/// file that is missing is nothing to complain of either. Of any other the
/// defaults are used, and the complaint names the file and ends in the reason.
pub proof fn a_file_is_used_or_complained_of(path: Seq<char>, file: ConfigFile, config: Config)
    requires
        is_loaded(config, file),
    ensures
        file is Parsed ==> config == file->Parsed_0,
        !(file is Parsed) ==> is_default_config(config),
        load_problem(path, file) is Some <==> file is Invalid || file is Unreadable,
        load_problem(path, file) is Some ==> occurs(load_problem(path, file)->0, path),
        file is Invalid ==> ends_with(load_problem(path, file)->0, file->Invalid_0@),
        file is Unreadable ==> ends_with(load_problem(path, file)->0, file->Unreadable_0@),
        file is Invalid ==> occurs(load_problem(path, file)->0, " is not valid JSON: "@),
{
    match file {
        ConfigFile::Invalid(err) => {
            let what = " is not valid JSON: "@;
            a_part_occurs("config at "@, path, what + err@);
            assert("config at "@ + path + (what + err@) =~= "config at "@ + path + what + err@);
            a_part_occurs("config at "@ + path, what, err@);
            a_part_occurs("config at "@ + path + what, err@, Seq::empty());
        },
        ConfigFile::Unreadable(err) => {
            let what = " could not be read: "@;
            a_part_occurs("config at "@, path, what + err@);
            assert("config at "@ + path + (what + err@) =~= "config at "@ + path + what + err@);
            a_part_occurs("config at "@ + path + what, err@, Seq::empty());
        },
        _ => {},
    }
}

/// The defaults can be used as they are: they are on, they ask for a depth that
/// is kept and for one of the numbers of bands that can be chosen, and nothing
/// is owed or routed.
pub proof fn the_defaults_can_be_used(config: Config)
    requires
        is_default_config(config),
    ensures
        config.enabled,
        20 <= config.buffer_ms <= 500,
        config.num_bands == 5 || config.num_bands == 10 || config.num_bands == 15
            || config.num_bands == 20 || config.num_bands == 31,
        config.previous_default_id is None,
        config.routes@.len() == 0,
{
}

/// The application's files lie side by side under its directory, which lies
/// under the base directory, and no two of them are the same.
pub proof fn own_files_lie_side_by_side(base: Seq<char>)
    ensures
        ends_with(app_dir(Some(base)), APP_DIR_NAME@),
        starts_with(app_dir(Some(base)), join_head(base)),
        own_path(Some(base), "config.json"@) == join_head(app_dir(Some(base))) + "config.json"@,
        own_path(Some(base), "presets"@) == join_head(app_dir(Some(base))) + "presets"@,
        own_path(Some(base), "fxtrumpet.log"@) == join_head(app_dir(Some(base)))
            + "fxtrumpet.log"@,
        own_path(Some(base), "config.json"@) != own_path(Some(base), "presets"@),
        own_path(Some(base), "config.json"@) != own_path(Some(base), "fxtrumpet.log"@),
        own_path(Some(base), "presets"@) != own_path(Some(base), "fxtrumpet.log"@),
{
    let dir = app_dir(Some(base));
    let a = "config.json"@;
    let b = "presets"@;
    let c = "fxtrumpet.log"@;
    assert(is_plain_name(a) && is_plain_name(b) && is_plain_name(c) && a.len() == 11 && b.len() == 7
        && c.len() == 13) by {
        reveal_strlit("config.json");
        reveal_strlit("presets");
        reveal_strlit("fxtrumpet.log");
    }
    assert(is_plain_name(APP_DIR_NAME@)) by {
        reveal_strlit("FxTrumpet");
    }
    a_joined_path_ends_in_the_name(base, APP_DIR_NAME@);
    a_part_occurs(join_head(base), APP_DIR_NAME@, Seq::empty());
    a_part_occurs(Seq::empty(), join_head(base), APP_DIR_NAME@);
    a_joined_path_ends_in_the_name(dir, a);
    a_joined_path_ends_in_the_name(dir, b);
    a_joined_path_ends_in_the_name(dir, c);
    joining_keeps_names_apart(dir, a, b);
    joining_keeps_names_apart(dir, a, c);
    joining_keeps_names_apart(dir, b, c);
}

/// Saving leaves the settings in place until the new ones are written in full:
/// the file that is written is renamed to that of the settings, which is removed
/// only after the writing, and nothing else is touched.
pub proof fn saving_writes_before_it_replaces(steps: Seq<SaveStep>, base: Option<Seq<char>>)
    requires
        saves(steps, base),
    ensures
        exists|w: int, d: int, n: int|
            0 <= w < d < n < steps.len() && (#[trigger] steps[w]) is Write && (#[trigger] steps[d])
                is Remove && (#[trigger] steps[n]) is Rename && steps[n]->Rename_0@
                == steps[w]->Write_0@ && steps[n]->Rename_1@ == steps[d]->Remove_0@
                && steps[d]->Remove_0@ == own_path(base, "config.json"@),
        steps.last() is Rename,
        forall|i: int| 0 < i < steps.len() ==> !((#[trigger] steps[i]) is CreateDirectory),
{
    assert(steps[1] is Write && steps[2] is Remove && steps[3] is Rename);
}

} // verus!
