//! Log levels and the filtering rule of the program's logger.
//!
//! The printing itself (timestamps, standard output) lives outside the
//! library; here stands the part a caller can rely on: which records a logger
//! at a given level lets through, and the label each level shows.

use vstd::prelude::*;

verus! {

/// Verbosity levels, least verbose first.
#[derive(Clone, Copy, Debug, PartialEq, Eq, Structural)]
pub enum Level {
    Quiet,
    Error,
    Warn,
    Display,
    Info,
    Debug,
    Trace,
}

/// The numeric rank of a level: a higher rank is chattier.
pub open spec fn level_rank(l: Level) -> int {
    match l {
        Level::Quiet => 1,
        Level::Error => 2,
        Level::Warn => 3,
        Level::Display => 4,
        Level::Info => 5,
        Level::Debug => 6,
        Level::Trace => 7,
    }
}

/// The three-letter tag a level shows in a log line.
pub open spec fn level_label(l: Level) -> Seq<char> {
    match l {
        Level::Quiet => "NON"@,
        Level::Error => "ERR"@,
        Level::Warn => "WRN"@,
        Level::Display => "DSP"@,
        Level::Info => "INF"@,
        Level::Debug => "DBG"@,
        Level::Trace => "TRC"@,
    }
}

impl Level {
    pub fn rank(&self) -> (r: u8)
        ensures
            r as int == level_rank(*self),
    {
        match self {
            Level::Quiet => 1,
            Level::Error => 2,
            Level::Warn => 3,
            Level::Display => 4,
            Level::Info => 5,
            Level::Debug => 6,
            Level::Trace => 7,
        }
    }

    /// The three-letter tag this level shows in a log line.
    pub fn label(&self) -> (r: &'static str)
        ensures
            r@ == level_label(*self),
    {
        match self {
            Level::Quiet => "NON",
            Level::Error => "ERR",
            Level::Warn => "WRN",
            Level::Display => "DSP",
            Level::Info => "INF",
            Level::Debug => "DBG",
            Level::Trace => "TRC",
        }
    }
}

/// One log record's metadata: its level and where it was issued.
#[derive(Debug)]
pub struct Attribute {
    pub level: Level,
    pub file: String,
    pub line: u32,
}

impl Attribute {
    pub fn new(level: Level, file: &str, line: u32) -> (a: Attribute)
        ensures
            a.level == level,
            a.file@ == file@,
            a.line == line,
    {
        Attribute { level, file: file.to_owned(), line }
    }
}

/// The logger: a verbosity threshold, fixed at startup and threaded through
/// explicitly.
#[derive(Debug)]
pub struct Logger {
    pub log_level: Level,
}

impl Logger {
    /// A logger that lets records through up to `level`.
    pub fn init(level: Level) -> (l: Logger)
        ensures
            l.log_level == level,
    {
        Logger { log_level: level }
    }

    pub fn set_level(&mut self, level: Level)
        ensures
            final(self).log_level == level,
    {
        self.log_level = level;
    }

    /// Does a record at `level` pass this logger's threshold?
    pub fn should_log(&self, level: &Level) -> (r: bool)
        ensures
            r == (level_rank(*level) <= level_rank(self.log_level)),
    {
        level.rank() <= self.log_level.rank()
    }
}

} // verus!
