//! Validation of logging settings. The logging pipeline itself — sinks,
//! rotation, the subscriber — is an external collaborator; this module
//! only turns the raw configuration into checked settings or a precise
//! error.

use vstd::prelude::*;

use crate::config::LoggingConfig;
use crate::text::{trim, trim_spec};

verus! {

/// A logging verbosity level.
#[derive(Clone, Copy, PartialEq, Eq, Structural, Debug)]
pub enum LogLevel {
    Trace,
    Debug,
    Info,
    Warn,
    Error,
}

/// ASCII lowercase of one character: letters `A`–`Z` are mapped, all
/// other characters are unchanged.
pub open spec fn lower_char(c: char) -> char {
    if 65 <= (c as u32) && (c as u32) <= 90 {
        ((((c as u32) + 32) as u8) as char)
    } else {
        c
    }
}

/// A string with each character ASCII-lowercased.
pub open spec fn lowered(s: Seq<char>) -> Seq<char> {
    s.map_values(|c: char| lower_char(c))
}

/// Relies on str::to_ascii_lowercase: ASCII letters are mapped to their
/// lowercase forms and every other character is copied unchanged.
#[verifier::external_body]
fn ascii_lowercase(s: &str) -> (r: String)
    ensures
        r@ == lowered(s@),
{
    s.to_ascii_lowercase()
}

/// The level named by a configuration string, compared after trimming and
/// ASCII-lowercasing; `warn` and `warning` are synonyms.
pub open spec fn level_of(s: Seq<char>) -> Option<LogLevel> {
    let t = lowered(trim_spec(s));
    if t == "trace"@ {
        Some(LogLevel::Trace)
    } else if t == "debug"@ {
        Some(LogLevel::Debug)
    } else if t == "info"@ {
        Some(LogLevel::Info)
    } else if t == "warn"@ || t == "warning"@ {
        Some(LogLevel::Warn)
    } else if t == "error"@ {
        Some(LogLevel::Error)
    } else {
        None
    }
}

/// An error raised while validating the logging settings.
#[derive(Debug)]
pub enum LoggingError {
    /// The level string names no known level; the value is the trimmed,
    /// lowercased string that was rejected.
    InvalidLevel { field: &'static str, value: String },
    /// A numeric setting is out of range for the chosen configuration.
    InvalidConfig { field: &'static str, message: String },
    /// The logging directory could not be created.
    CreateDir { path: String, message: String },
    /// Installing the logging pipeline failed.
    InitFailed(String),
}

/// Parses a configured level string.
pub fn parse_level(value: &str) -> (r: Result<LogLevel, LoggingError>)
    ensures
        match r {
            Result::Ok(l) => level_of(value@) == Some(l),
            Result::Err(e) => {
                &&& level_of(value@) is None
                &&& e matches LoggingError::InvalidLevel { field, value: v } && field@ == "level"@
                    && v@ == lowered(trim_spec(value@))
            },
        },
{
    let t = trim(value);
    let low = ascii_lowercase(t.as_str());
    if low.eq(&String::from_str("trace")) {
        Ok(LogLevel::Trace)
    } else if low.eq(&String::from_str("debug")) {
        Ok(LogLevel::Debug)
    } else if low.eq(&String::from_str("info")) {
        Ok(LogLevel::Info)
    } else if low.eq(&String::from_str("warn")) || low.eq(&String::from_str("warning")) {
        Ok(LogLevel::Warn)
    } else if low.eq(&String::from_str("error")) {
        Ok(LogLevel::Error)
    } else {
        Err(LoggingError::InvalidLevel { field: "level", value: low })
    }
}

/// The mathematical value of a [`LoggingSettings`].
pub struct LoggingSettingsView {
    pub level: LogLevel,
    pub directory: Option<Seq<char>>,
    pub max_bytes: u64,
    pub max_files: usize,
    pub console: bool,
}

/// Checked logging settings, ready for the unverified logging sink.
pub struct LoggingSettings {
    pub level: LogLevel,
    pub directory: Option<String>,
    pub max_bytes: u64,
    pub max_files: usize,
    pub console: bool,
}

impl View for LoggingSettings {
    type V = LoggingSettingsView;

    open spec fn view(&self) -> LoggingSettingsView {
        LoggingSettingsView {
            level: self.level,
            directory: match self.directory {
                Option::Some(d) => Option::Some(d@),
                Option::None => Option::None,
            },
            max_bytes: self.max_bytes,
            max_files: self.max_files,
            console: self.console,
        }
    }
}

impl LoggingSettings {
    /// Checks a logging configuration: the level string must name a
    /// level, and when a log directory is set, the rotation bounds must
    /// both be positive. On success every setting is carried over.
    pub fn from_config(cfg: &LoggingConfig) -> (r: Result<LoggingSettings, LoggingError>)
        ensures
            match r {
                Result::Ok(s) => {
                    &&& level_of(cfg@.level) == Some(s@.level)
                    &&& cfg@.directory is Some ==> (cfg@.max_bytes > 0 && cfg@.max_files > 0)
                    &&& s@.directory == cfg@.directory
                    &&& s@.max_bytes == cfg@.max_bytes
                    &&& s@.max_files == cfg@.max_files
                    &&& s@.console == cfg@.console
                },
                Result::Err(e) => match e {
                    LoggingError::InvalidLevel { field, value } => {
                        &&& level_of(cfg@.level) is None
                        &&& field@ == "level"@
                        &&& value@ == lowered(trim_spec(cfg@.level))
                    },
                    LoggingError::InvalidConfig { field, .. } => {
                        &&& level_of(cfg@.level) is Some
                        &&& cfg@.directory is Some
                        &&& (field@ == "max_bytes"@ && cfg@.max_bytes == 0) || (field@
                            == "max_files"@ && cfg@.max_bytes > 0 && cfg@.max_files == 0)
                    },
                    _ => false,
                },
            },
    {
        let level = match parse_level(cfg.level.as_str()) {
            Ok(l) => l,
            Err(e) => {
                return Err(e);
            },
        };
        if cfg.directory.is_some() {
            if cfg.max_bytes == 0 {
                return Err(
                    LoggingError::InvalidConfig {
                        field: "max_bytes",
                        message: String::from_str("must be > 0 when logging.directory is set"),
                    },
                );
            }
            if cfg.max_files == 0 {
                return Err(
                    LoggingError::InvalidConfig {
                        field: "max_files",
                        message: String::from_str("must be > 0 when logging.directory is set"),
                    },
                );
            }
        }
        let directory = match &cfg.directory {
            Some(d) => Some(d.clone()),
            None => None,
        };
        Ok(
            LoggingSettings {
                level,
                directory,
                max_bytes: cfg.max_bytes,
                max_files: cfg.max_files,
                console: cfg.console,
            },
        )
    }
}

} // verus!
