//! What the configuration file says, and the rules that read it.

use vstd::prelude::*;

use crate::text::{is_blank, str_equal, to_upper, trim_str, trimmed, uppercase};

verus! {

/// How much is logged: the levels of the `log` facade.
#[derive(Debug, Copy, Clone, PartialEq, Eq, Structural)]
pub enum LevelFilter {
    Off,
    Error,
    Warn,
    Info,
    Debug,
    Trace,
}

/// Directory of the log file where the configured path is relative.
pub const LOG_DIR: &'static str = "logs";

/// Name of the log file where none is configured.
pub const LOG_FILE: &'static str = "kvstore.log";

/// The level that an upper-case name stands for.
pub open spec fn level_named(name: Seq<char>) -> Option<LevelFilter> {
    if name == "TRACE"@ {
        Some(LevelFilter::Trace)
    } else if name == "DEBUG"@ {
        Some(LevelFilter::Debug)
    } else if name == "INFO"@ {
        Some(LevelFilter::Info)
    } else if name == "WARN"@ || name == "WARNING"@ {
        Some(LevelFilter::Warn)
    } else if name == "ERROR"@ {
        Some(LevelFilter::Error)
    } else {
        None
    }
}

/// The level that a configured text stands for: its trimmed, upper-case
/// form is looked up.
pub open spec fn parsed_level(raw: Seq<char>) -> Option<LevelFilter> {
    level_named(uppercase(trimmed(raw)))
}

/// The level that an upper-case name stands for.
pub fn level_from_upper(name: &str) -> (r: Option<LevelFilter>)
    ensures
        r == level_named(name@),
{
    if str_equal(name, "TRACE") {
        Some(LevelFilter::Trace)
    } else if str_equal(name, "DEBUG") {
        Some(LevelFilter::Debug)
    } else if str_equal(name, "INFO") {
        Some(LevelFilter::Info)
    } else if str_equal(name, "WARN") || str_equal(name, "WARNING") {
        Some(LevelFilter::Warn)
    } else if str_equal(name, "ERROR") {
        Some(LevelFilter::Error)
    } else {
        None
    }
}

/// Reads a level from a configured text, whatever its case and the
/// whitespace around it.
pub fn parse_level(raw: &str) -> (r: Option<LevelFilter>)
    ensures
        r == parsed_level(raw@),
{
    let upper = to_upper(trim_str(raw));
    level_from_upper(upper.as_str())
}

/// Logging as configured.
#[derive(Debug)]
pub struct LoggingSettings {
    pub level: Option<String>,
    pub file: Option<String>,
}

impl Default for LoggingSettings {
    fn default() -> (s: Self)
        ensures
            s.level is None,
            s.file is None,
    {
        LoggingSettings { level: None, file: None }
    }
}

impl LoggingSettings {
    /// The configured level, where one is configured and known.
    pub open spec fn level_view(&self) -> Option<LevelFilter> {
        match self.level {
            Some(raw) => parsed_level(raw@),
            None => None,
        }
    }

    /// The configured log file: the configured text unless it is missing or
    /// blank, else the default name.
    pub open spec fn file_view(&self) -> Seq<char> {
        match self.file {
            Some(f) => if trimmed(f@).len() == 0 {
                LOG_FILE@
            } else {
                f@
            },
            None => LOG_FILE@,
        }
    }

    /// The configured level, where one is configured and known.
    pub fn level_filter(&self) -> (r: Option<LevelFilter>)
        ensures
            r == self.level_view(),
    {
        match &self.level {
            Some(raw) => parse_level(raw.as_str()),
            None => None,
        }
    }

    /// The name of the log file.
    pub fn file_name(&self) -> (name: &str)
        ensures
            name@ == self.file_view(),
    {
        match &self.file {
            Some(f) => if is_blank(f.as_str()) {
                LOG_FILE
            } else {
                f.as_str()
            },
            None => LOG_FILE,
        }
    }
}

/// The level to log at: what the environment names, if it names a level;
/// else what is configured, if that is a level; else warnings.
pub open spec fn chosen_level(env_value: Option<Seq<char>>, configured: Option<LevelFilter>) -> LevelFilter {
    let from_env = match env_value {
        Some(v) => level_named(uppercase(v)),
        None => None,
    };
    match from_env {
        Some(level) => level,
        None => match configured {
            Some(level) => level,
            None => LevelFilter::Warn,
        },
    }
}

/// The level to log at, from the environment's word and the settings.
pub fn choose_level(env_value: Option<&str>, logging: &LoggingSettings) -> (level: LevelFilter)
    ensures
        level == chosen_level(
            match env_value {
                Some(v) => Some(v@),
                None => None,
            },
            logging.level_view(),
        ),
{
    let from_env = match env_value {
        Some(v) => {
            let upper = to_upper(v);
            level_from_upper(upper.as_str())
        },
        None => None,
    };
    match from_env {
        Some(level) => level,
        None => match logging.level_filter() {
            Some(level) => level,
            None => LevelFilter::Warn,
        },
    }
}

/// The path of the log file: the configured one where it is absolute, else
/// that name inside the log directory.
pub open spec fn log_path(configured: Seq<char>, absolute: bool) -> Seq<char> {
    if absolute {
        configured
    } else {
        LOG_DIR@ + "/"@ + configured
    }
}

/// The path of the log file, from the configured name and whether that
/// name is an absolute path.
pub fn resolve_log_path(configured: &str, absolute: bool) -> (path: String)
    ensures
        path@ == log_path(configured@, absolute),
{
    if absolute {
        String::from_str(configured)
    } else {
        let mut path = String::from_str(LOG_DIR);
        path.append("/");
        path.append(configured);
        path
    }
}

/// The recent-access log as configured.
#[derive(Debug)]
pub struct HistorySettings {
    pub file: Option<String>,
    limit: usize,
}

impl Default for HistorySettings {
    fn default() -> (s: Self)
        ensures
            s.file_view() is None,
            s.limit_view() == 25,
    {
        HistorySettings { file: None, limit: HistorySettings::default_limit() }
    }
}

impl HistorySettings {
    /// The greatest number of keys in the log.
    pub closed spec fn limit_view(&self) -> nat {
        self.limit as nat
    }

    /// The configured path of the log, if one is configured.
    pub closed spec fn file_view(&self) -> Option<Seq<char>> {
        match self.file {
            Some(f) => Some(f@),
            None => None,
        }
    }

    /// The settings of a log at `file` of at most `limit` keys.
    pub fn new(file: Option<String>, limit: usize) -> (s: Self)
        ensures
            s.file_view() == match file {
                Some(f) => Some(f@),
                None => None,
            },
            s.limit_view() == limit,
    {
        HistorySettings { file, limit }
    }

    /// How many keys the log keeps where nothing is configured.
    pub fn default_limit() -> (n: usize)
        ensures
            n == 25,
    {
        25
    }

    /// Maximum number of keys to retain in the log.
    pub fn limit(&self) -> (n: usize)
        ensures
            n == self.limit_view(),
    {
        self.limit
    }

    /// The configured path of the log, if one is configured.
    pub fn file(&self) -> (r: Option<&str>)
        ensures
            match r {
                Some(p) => self.file_view() == Some(p@),
                None => self.file_view() is None,
            },
    {
        match &self.file {
            Some(f) => Some(f.as_str()),
            None => None,
        }
    }
}

/// The settings of the application.
#[derive(Debug)]
pub struct AppSettings {
    logging: LoggingSettings,
    history: HistorySettings,
}

impl Default for AppSettings {
    fn default() -> (s: Self)
        ensures
            s.logging_view().level is None,
            s.logging_view().file is None,
            s.history_view().file_view() is None,
            s.history_view().limit_view() == 25,
    {
        AppSettings { logging: LoggingSettings::default(), history: HistorySettings::default() }
    }
}

impl AppSettings {
    /// Files that are tried in turn for the settings.
    pub const DEFAULT_PATHS: [&'static str; 2] = ["kvstore.toml", "config/kvstore.toml"];

    /// The logging configuration.
    pub closed spec fn logging_view(&self) -> LoggingSettings {
        self.logging
    }

    /// The history configuration.
    pub closed spec fn history_view(&self) -> HistorySettings {
        self.history
    }

    /// Settings made of their two parts.
    pub fn new(logging: LoggingSettings, history: HistorySettings) -> (s: Self)
        ensures
            s.logging_view() == logging,
            s.history_view() == history,
    {
        AppSettings { logging, history }
    }

    /// The logging configuration.
    pub fn logging(&self) -> (r: &LoggingSettings)
        ensures
            *r == self.logging_view(),
    {
        &self.logging
    }

    /// The history configuration.
    pub fn history(&self) -> (r: &HistorySettings)
        ensures
            *r == self.history_view(),
    {
        &self.history
    }
}

} // verus!
