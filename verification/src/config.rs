//! User configuration, and the fonts it names.
//!
//! The configuration file is optional. A missing file is fine and gives the
//! default configuration; a malformed one gives a warning and also falls back
//! to the default.
use crate::bytes::utf8_text;
use crate::git::{Outcome, OutcomeView};
use crate::text;
use crate::text::{chars_of, string_of, trimmed};
use vstd::prelude::*;
use vstd::string::*;
use vstd::utf8::*;

verus! {

#[derive(Debug, PartialEq, Eq)]
pub struct FontConfig {
    /// Monospace font family used for the diff pane, the file-tree gutter,
    /// and the footer hint labels. Empty string (the default) means
    /// "use the per-OS default" (`Menlo` on macOS, `DejaVu Sans Mono` on
    /// Linux).
    pub mono_family: String,
    /// Diff pane text size in pixels, as the bits of a single-precision
    /// number. None falls back to the built-in default (13 px).
    pub mono_text_size: Option<u32>,
}

#[derive(Debug, PartialEq, Eq)]
pub struct Config {
    pub font: FontConfig,
}

/// Whether a configuration leaves everything at its default.
pub open spec fn is_default(config: Config) -> bool {
    config.font.mono_family@.len() == 0 && config.font.mono_text_size is None
}

impl Default for FontConfig {
    /// The built-in fonts.
    fn default() -> (r: Self)
        ensures
            r.mono_family@.len() == 0,
            r.mono_text_size is None,
    {
        FontConfig { mono_family: String::new(), mono_text_size: None }
    }
}

impl Default for Config {
    /// The built-in configuration.
    fn default() -> (r: Self)
        ensures
            is_default(r),
    {
        Config { font: FontConfig::default() }
    }
}

/// What was found where the configuration file belongs.
pub enum ConfigFile {
    /// There is no place for it.
    NoPath,
    /// There is no file.
    Missing,
    /// It could not be read, for this reason.
    Unreadable(String),
    /// It is not UTF-8, for this reason.
    NotText(String),
    /// It is no configuration, for this reason.
    Malformed(String),
    /// It holds this configuration.
    Parsed(Config),
}

/// What to warn the user of.
pub open spec fn warning_for(program: Seq<char>, path: Seq<char>, file: ConfigFile) -> Option<Seq<char>> {
    match file {
        ConfigFile::Unreadable(err) => Some(
            program + ": could not read "@ + path + ": "@ + err@,
        ),
        ConfigFile::NotText(err) => Some(
            program + ": "@ + path + " is not valid UTF-8: "@ + err@,
        ),
        ConfigFile::Malformed(err) => Some(
            program + ": could not parse "@ + path + ": "@ + err@,
        ),
        _ => None,
    }
}

fn warning(program: &str, before: &str, path: &str, between: &str, err: &str) -> (r: String)
    ensures
        r@ == program@ + before@ + path@ + between@ + err@,
{
    let mut out = program.to_owned();
    out.append(before);
    out.append(path);
    out.append(between);
    out.append(err);
    out
}

impl Config {
    /// The configuration that a file gives, and what to warn the user of. Only
    /// a file that was parsed gives anything but the default; only one that is
    /// there and cannot be used gives a warning, in the name of the program.
    pub fn load(program: &str, path: &str, file: ConfigFile) -> (r: (Config, Option<String>))
        ensures
            match file {
                ConfigFile::Parsed(config) => r.0 == config,
                _ => is_default(r.0),
            },
            text::opt_text(r.1) == warning_for(program@, path@, file),
    {
        match file {
            ConfigFile::NoPath => (Config::default(), None),
            ConfigFile::Missing => (Config::default(), None),
            ConfigFile::Unreadable(err) => (
                Config::default(),
                Some(warning(program, ": could not read ", path, ": ", err.as_str())),
            ),
            ConfigFile::NotText(err) => (
                Config::default(),
                Some(warning(program, ": ", path, " is not valid UTF-8: ", err.as_str())),
            ),
            ConfigFile::Malformed(err) => (
                Config::default(),
                Some(warning(program, ": could not parse ", path, ": ", err.as_str())),
            ),
            ConfigFile::Parsed(config) => (config, None),
        }
    }
}

/// A directory, and names that lead down from it.
pub struct ConfigPath<T> {
    pub base: T,
    pub names: Vec<String>,
}

/// Where the configuration file of a program belongs: `program/config.toml` in
/// the user's configuration directory if one is set, else
/// `.config/program/config.toml` in the home directory, else nowhere.
pub fn config_path<T>(program: &str, config_home: Option<T>, home: Option<T>) -> (r: Option<
    ConfigPath<T>,
>)
    ensures
        config_home is Some ==> {
            &&& r is Some
            &&& r->0.base == config_home->0
            &&& text::texts(r->0.names@) == seq![program@, "config.toml"@]
        },
        config_home is None && home is Some ==> {
            &&& r is Some
            &&& r->0.base == home->0
            &&& text::texts(r->0.names@) == seq![".config"@, program@, "config.toml"@]
        },
        config_home is None && home is None ==> r is None,
{
    let mut names: Vec<String> = Vec::new();
    match config_home {
        Some(base) => {
            names.push(program.to_owned());
            names.push("config.toml".to_owned());
            assert(text::texts(names@) =~= seq![program@, "config.toml"@]);
            Some(ConfigPath { base, names })
        },
        None => match home {
            Some(base) => {
                names.push(".config".to_owned());
                names.push(program.to_owned());
                names.push("config.toml".to_owned());
                assert(text::texts(names@) =~= seq![".config"@, program@, "config.toml"@]);
                Some(ConfigPath { base, names })
            },
            None => None,
        },
    }
}

/// The default monospace family when the config doesn't specify one. macOS
/// ships Menlo by default; on Linux we ask for DejaVu Sans Mono (almost
/// always present) and let fontconfig fall back to whatever monospace is
/// installed.
pub fn default_mono_family(macos: bool) -> (r: &'static str)
    ensures
        r@ == if macos {
            "Menlo"@
        } else {
            "DejaVu Sans Mono"@
        },
{
    if macos {
        "Menlo"
    } else {
        "DejaVu Sans Mono"
    }
}

/// The monospace family: the configured one, or that of the system where none is.
pub fn mono_family(config: &Config, macos: bool) -> (r: String)
    ensures
        r@ == if config.font.mono_family@.len() > 0 {
            config.font.mono_family@
        } else if macos {
            "Menlo"@
        } else {
            "DejaVu Sans Mono"@
        },
{
    if config.font.mono_family.as_str().is_empty() {
        default_mono_family(macos).to_owned()
    } else {
        config.font.mono_family.clone()
    }
}

/// The text of a configuration file; nothing where it is not UTF-8.
pub fn config_text(bytes: Vec<u8>) -> (r: Option<String>)
    ensures
        text::opt_text(r) == if valid_utf8(bytes@) {
            Some(decode_utf8(bytes@))
        } else {
            None
        },
{
    utf8_text(bytes)
}

/// The default text size of the diff pane, in pixels.
pub fn default_mono_text_size() -> (r: u32)
    ensures
        r == 13,
{
    13
}

/// The family in what `fc-match` prints, which is "Family Name:style stuff".
pub open spec fn family_in(printed: Seq<char>) -> Seq<char> {
    let line = text::trim(printed);
    text::trim(line.take(text::find_char(line, ':')))
}

/// What fontconfig picks for a family, from what became of `fc-match`: the
/// matched family name (which may differ from the requested one when
/// fontconfig fell back), or nothing if fontconfig isn't installed.
pub fn fc_match(outcome: Outcome) -> (r: Option<String>)
    ensures
        text::opt_text(r) == match outcome@ {
            OutcomeView::Ran { success, stdout, .. } => if success && valid_utf8(stdout) {
                Some(family_in(decode_utf8(stdout)))
            } else {
                None
            },
            OutcomeView::NotRun(_) => None,
        },
{
    let stdout = match outcome {
        Outcome::Ran { success, code: _, stdout, stderr: _ } => if success {
            stdout
        } else {
            return None;
        },
        Outcome::NotRun(_) => {
            return None;
        },
    };
    match utf8_text(stdout) {
        Some(printed) => {
            let line = trimmed(printed.as_str());
            let chars = chars_of(line.as_str());
            let mut end: usize = 0;
            while end < chars.len() && chars[end] != ':'
                invariant
                    end <= chars@.len(),
                    forall|i: int| 0 <= i < end ==> chars@[i] != ':',
                decreases chars@.len() - end,
            {
                end = end + 1;
            }
            proof {
                text::lemma_find_char_is(chars@, ':', end as int);
                assert(chars@.subrange(0, end as int) =~= chars@.take(end as int));
            }
            let family = string_of(&chars, 0, end);
            Some(trimmed(family.as_str()))
        },
        None => None,
    }
}

} // verus!
