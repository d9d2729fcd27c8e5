//! Console-side log levels and the mode flags that route a log line to the
//! brief console layer, the detailed console layer, or the JSON file layer.

use vstd::prelude::*;

verus! {

/// Which layer a log line is meant for. A line carries a set of these as
/// one flags byte.
#[derive(Debug, Clone, Copy, PartialEq, Eq, Structural)]
pub enum LogMode {
    /// The short console line for everyday runs.
    ConsoleBrief,
    /// The detailed console line for verbose runs.
    ConsoleDetail,
    /// The structured line written to the log file.
    FileJson,
}

impl LogMode {
    /// The bit this mode occupies in a flags byte.
    pub open spec fn spec_bits(self) -> u8 {
        match self {
            LogMode::ConsoleBrief => 1,
            LogMode::ConsoleDetail => 2,
            LogMode::FileJson => 4,
        }
    }

    /// The bit this mode occupies in a flags byte.
    pub fn bits(self) -> (r: u8)
        ensures
            r == self.spec_bits(),
    {
        match self {
            LogMode::ConsoleBrief => 1,
            LogMode::ConsoleDetail => 2,
            LogMode::FileJson => 4,
        }
    }

    /// Whether the given flags include this mode.
    pub fn matches(self, flags: u8) -> (r: bool)
        ensures
            r == ((flags & self.spec_bits()) != 0),
    {
        (flags & self.bits()) != 0
    }
}

/// The flags for a detail-only line: the file layer, plus the detailed
/// console when verbose.
pub fn mode_log_flags(verbose: bool) -> (r: u8)
    ensures
        verbose ==> r == (LogMode::FileJson.spec_bits() | LogMode::ConsoleDetail.spec_bits()),
        !verbose ==> r == LogMode::FileJson.spec_bits(),
{
    if verbose {
        LogMode::FileJson.bits() | LogMode::ConsoleDetail.bits()
    } else {
        LogMode::FileJson.bits()
    }
}

/// The flags for a console-only line: nothing when verbose (the detailed
/// layer already shows everything), else the brief console.
pub fn mode_console_flags(verbose: bool) -> (r: u8)
    ensures
        verbose ==> r == 0,
        !verbose ==> r == LogMode::ConsoleBrief.spec_bits(),
{
    if verbose {
        0
    } else {
        LogMode::ConsoleBrief.bits()
    }
}

/// The flags for a line meant for both the file and the console.
pub fn mode_multi_flags(verbose: bool) -> (r: u8)
    ensures
        verbose ==> r == (LogMode::FileJson.spec_bits() | LogMode::ConsoleDetail.spec_bits()),
        !verbose ==> r == (LogMode::FileJson.spec_bits() | LogMode::ConsoleBrief.spec_bits()),
{
    if verbose {
        LogMode::FileJson.bits() | LogMode::ConsoleDetail.bits()
    } else {
        LogMode::FileJson.bits() | LogMode::ConsoleBrief.bits()
    }
}

/// Console log levels ordered by severity, most severe first.
#[derive(Debug, Clone, Copy, PartialEq, Eq, Structural, PartialOrd, Ord)]
pub enum ConsoleLevel {
    Error,
    Warn,
    Info,
    Debug,
    Trace,
}

impl ConsoleLevel {
    /// The plain five-column label of the level, right-aligned.
    pub fn as_str(&self) -> (r: String)
        ensures
            *self == ConsoleLevel::Error ==> r@ == "ERROR"@,
            *self == ConsoleLevel::Warn ==> r@ == " WARN"@,
            *self == ConsoleLevel::Info ==> r@ == " INFO"@,
            *self == ConsoleLevel::Debug ==> r@ == "DEBUG"@,
            *self == ConsoleLevel::Trace ==> r@ == "TRACE"@,
    {
        match self {
            ConsoleLevel::Error => "ERROR".to_owned(),
            ConsoleLevel::Warn => " WARN".to_owned(),
            ConsoleLevel::Info => " INFO".to_owned(),
            ConsoleLevel::Debug => "DEBUG".to_owned(),
            ConsoleLevel::Trace => "TRACE".to_owned(),
        }
    }

    /// Whether the level's line belongs on the error stream rather than
    /// standard output.
    pub fn uses_stderr(&self) -> (r: bool)
        ensures
            r == (*self == ConsoleLevel::Error || *self == ConsoleLevel::Warn
                || *self == ConsoleLevel::Trace),
    {
        match self {
            ConsoleLevel::Error => true,
            ConsoleLevel::Warn => true,
            ConsoleLevel::Trace => true,
            _ => false,
        }
    }
}

} // verus!
