//! The bridge's settings: which connector to use, its arguments, the log
//! level and whether sections are parsed.
//!
//! Reading and writing the settings file happens outside the library; here
//! are the values, their defaults and the meaning of the log level.
use vstd::prelude::*;

verus! {

/// The settings of the bridge.
pub struct Config {
    /// Name of the connector to load.
    pub connector: String,
    /// Argument string handed to the connector.
    pub args: String,
    /// Log level, one of off, error, warn, info, debug or trace (any case).
    pub log_level: String,
    /// Whether section enumeration walks the page map.
    pub parse_sections: bool,
}

impl Default for Config {
    /// No connector, no arguments, level "info", sections not parsed.
    fn default() -> (r: Config)
        ensures
            r.connector@ == Seq::<char>::empty(),
            r.args@ == Seq::<char>::empty(),
            r.log_level@ == "info"@,
            !r.parse_sections,
    {
        Config {
            connector: String::new(),
            args: String::new(),
            log_level: "info".to_owned(),
            parse_sections: false,
        }
    }
}

impl Config {
    /// A field-by-field copy of the settings.
    pub fn copy(&self) -> (r: Config)
        ensures
            r == *self,
    {
        Config {
            connector: self.connector.clone(),
            args: self.args.clone(),
            log_level: self.log_level.clone(),
            parse_sections: self.parse_sections,
        }
    }
}

/// The log level that a settings file without one gets: "info".
pub fn default_string_info() -> (r: String)
    ensures
        r@ == "info"@,
{
    "info".to_owned()
}

/// Whether a settings file without the flag parses sections: yes.
pub fn default_bool_true() -> (r: bool)
    ensures
        r,
{
    true
}

/// How much the bridge logs.
#[derive(Clone, Copy, Debug, PartialEq, Eq, Structural)]
pub enum LogLevel {
    Off,
    Error,
    Warn,
    Info,
    Debug,
    Trace,
}

/// The lower-case form of a text, as `str::to_lowercase` gives it.
pub uninterp spec fn lowercase_of(s: Seq<char>) -> Seq<char>;

/// Relies on `str::to_lowercase`: the result depends on the characters alone.
#[verifier::external_body]
fn to_lowercase(s: &str) -> (r: String)
    ensures
        r@ == lowercase_of(s@),
{
    s.to_lowercase()
}

/// The level that a lower-case level name stands for; unknown names turn
/// logging off.
pub open spec fn level_named(name: Seq<char>) -> LogLevel {
    if name == "error"@ {
        LogLevel::Error
    } else if name == "warn"@ {
        LogLevel::Warn
    } else if name == "info"@ {
        LogLevel::Info
    } else if name == "debug"@ {
        LogLevel::Debug
    } else if name == "trace"@ {
        LogLevel::Trace
    } else {
        LogLevel::Off
    }
}

/// The level of a lower-case level name.
pub fn level_of_lowercase(name: &String) -> (r: LogLevel)
    ensures
        r == level_named(name@),
{
    if *name == "error".to_owned() {
        LogLevel::Error
    } else if *name == "warn".to_owned() {
        LogLevel::Warn
    } else if *name == "info".to_owned() {
        LogLevel::Info
    } else if *name == "debug".to_owned() {
        LogLevel::Debug
    } else if *name == "trace".to_owned() {
        LogLevel::Trace
    } else {
        LogLevel::Off
    }
}

/// The level that a configured level name stands for, in any case.
pub fn log_level_from_str(log_level: &str) -> (r: LogLevel)
    ensures
        r == level_named(lowercase_of(log_level@)),
{
    let lower = to_lowercase(log_level);
    level_of_lowercase(&lower)
}

} // verus!
