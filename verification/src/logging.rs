//! The application's log: which messages are let through, and how a line
//! of the log reads.
//!
//! Getting the time and writing lines to the console and to a file are left
//! to the caller; a [`Logger`] decides and formats.

use crate::text::chars_of;
use crate::text::decimal;
use crate::text::extension_of;
use crate::text::extension_start;
use crate::text::join_path;
use crate::text::joined;
use crate::text::to_decimal;
use crate::utils::capped_sum;
use crate::utils::total_bytes;
use std::cmp::Ordering;
use vstd::prelude::*;

verus! {

/// How grave a message is.
#[derive(Debug, Clone, Copy, PartialEq, Eq, Structural)]
pub enum LogLevel {
    Debug,
    Info,
    Warn,
    Error,
}

impl LogLevel {
    /// Place of the level in the order from `Debug` to `Error`.
    pub open spec fn rank(self) -> nat {
        match self {
            LogLevel::Debug => 0,
            LogLevel::Info => 1,
            LogLevel::Warn => 2,
            LogLevel::Error => 3,
        }
    }

    /// The name of the level as it is written in the log.
    pub open spec fn name(self) -> Seq<char> {
        match self {
            LogLevel::Debug => "DEBUG"@,
            LogLevel::Info => "INFO"@,
            LogLevel::Warn => "WARN"@,
            LogLevel::Error => "ERROR"@,
        }
    }

    /// The escape sequence that sets the colour of the level.
    pub open spec fn colour(self) -> Seq<char> {
        match self {
            LogLevel::Debug => "\x1b[35m"@,
            LogLevel::Info => "\x1b[32m"@,
            LogLevel::Warn => "\x1b[33m"@,
            LogLevel::Error => "\x1b[31m"@,
        }
    }

    /// The level's place in the order from `Debug` to `Error`.
    pub fn rank_value(&self) -> (rank: u8)
        ensures
            rank == self.rank(),
    {
        match self {
            LogLevel::Debug => 0,
            LogLevel::Info => 1,
            LogLevel::Warn => 2,
            LogLevel::Error => 3,
        }
    }

    /// The name of the level in capital letters.
    pub fn as_str(&self) -> (name: &'static str)
        ensures
            name@ == self.name(),
    {
        match self {
            LogLevel::Debug => "DEBUG",
            LogLevel::Info => "INFO",
            LogLevel::Warn => "WARN",
            LogLevel::Error => "ERROR",
        }
    }

    /// The escape sequence for the level's colour on a terminal.
    pub fn colour_code(&self) -> (code: &'static str)
        ensures
            code@ == self.colour(),
    {
        match self {
            LogLevel::Debug => "\x1b[35m",
            LogLevel::Info => "\x1b[32m",
            LogLevel::Warn => "\x1b[33m",
            LogLevel::Error => "\x1b[31m",
        }
    }
}

impl PartialOrd for LogLevel {
    fn partial_cmp(&self, other: &LogLevel) -> (order: Option<Ordering>) {
        let a = self.rank_value();
        let b = other.rank_value();
        if a < b {
            Some(Ordering::Less)
        } else if a > b {
            Some(Ordering::Greater)
        } else {
            Some(Ordering::Equal)
        }
    }
}

impl vstd::std_specs::cmp::PartialOrdSpecImpl for LogLevel {
    open spec fn obeys_partial_cmp_spec() -> bool {
        true
    }

    open spec fn partial_cmp_spec(&self, other: &LogLevel) -> Option<Ordering> {
        if self.rank() < other.rank() {
            Some(Ordering::Less)
        } else if self.rank() > other.rank() {
            Some(Ordering::Greater)
        } else {
            Some(Ordering::Equal)
        }
    }
}

/// What a logger lets through and where it sends it.
#[derive(Debug, Clone, Copy)]
pub struct LoggerConfig {
    /// Messages below this level are dropped.
    pub min_level: LogLevel,
    /// Lines go to the console.
    pub console_output: bool,
    /// Lines go to the log file.
    pub file_output: bool,
    /// Lines on the console are coloured.
    pub use_colors: bool,
}

impl Default for LoggerConfig {
    fn default() -> (config: LoggerConfig)
        ensures
            config.min_level == LogLevel::Info,
            config.console_output,
            config.file_output,
            config.use_colors,
    {
        LoggerConfig {
            min_level: LogLevel::Info,
            console_output: true,
            file_output: true,
            use_colors: true,
        }
    }
}

/// The time of a message, written both ways that the log needs it.
#[derive(Debug)]
pub struct Timestamp {
    /// Time of day, as in `14:03:59`.
    pub time: String,
    /// Date and time, as in `2024-05-17 14:03:59.123`.
    pub full: String,
}

/// What is to be written for one message.
#[derive(Debug)]
pub struct LogOutput {
    /// The line for the console, if the console gets one.
    pub console: Option<String>,
    /// The line for the log file, if the file gets one.
    pub file: Option<String>,
}

/// A coloured line: the time dimmed, a dot and the module in the level's
/// colour, then the message.
pub open spec fn coloured_line(
    level: LogLevel,
    module: Seq<char>,
    message: Seq<char>,
    time: Seq<char>,
) -> Seq<char> {
    "\x1b[90m"@ + time + " "@ + level.colour() + "\u{25cf}"@ + "\x1b[0m"@ + " "@ + level.colour()
        + module + ":"@ + "\x1b[0m"@ + " "@ + message
}

/// A plain line: date and time, level and module in brackets, then the
/// message.
pub open spec fn plain_line(
    level: LogLevel,
    module: Seq<char>,
    message: Seq<char>,
    full: Seq<char>,
) -> Seq<char> {
    "["@ + full + "] ["@ + level.name() + "] ["@ + module + "] "@ + message
}

/// The application's logger.
#[derive(Debug)]
pub struct Logger {
    /// What is let through, and where to.
    pub config: LoggerConfig,
    /// The file that lines are written to, if there is one.
    pub log_path: Option<String>,
}

impl Logger {
    /// A logger with the default configuration that writes to `log_path`.
    pub fn new(log_path: Option<String>) -> (logger: Logger)
        ensures
            logger.log_path == log_path,
            logger.config.min_level == LogLevel::Info,
            logger.config.console_output,
            logger.config.file_output,
            logger.config.use_colors,
    {
        Logger { config: LoggerConfig::default(), log_path }
    }

    /// The line for a message with colours for a terminal.
    pub fn format_message_colored(
        &self,
        level: LogLevel,
        module: &str,
        message: &str,
        timestamp: &Timestamp,
    ) -> (line: String)
        ensures
            line@ == coloured_line(level, module@, message@, timestamp.time@),
    {
        let mut line = "\x1b[90m".to_owned();
        line.append(timestamp.time.as_str());
        line.append(" ");
        line.append(level.colour_code());
        line.append("\u{25cf}");
        line.append("\x1b[0m");
        line.append(" ");
        line.append(level.colour_code());
        line.append(module);
        line.append(":");
        line.append("\x1b[0m");
        line.append(" ");
        line.append(message);
        line
    }

    /// The line for a message without colours.
    pub fn format_message_plain(
        &self,
        level: LogLevel,
        module: &str,
        message: &str,
        timestamp: &Timestamp,
    ) -> (line: String)
        ensures
            line@ == plain_line(level, module@, message@, timestamp.full@),
    {
        let mut line = "[".to_owned();
        line.append(timestamp.full.as_str());
        line.append("] [");
        line.append(level.as_str());
        line.append("] [");
        line.append(module);
        line.append("] ");
        line.append(message);
        line
    }

    /// Is `output` what has to be written for a message of the given
    /// level?
    ///
    /// A message below the configured level is dropped.  The console gets
    /// the coloured or the plain line, as configured; the file always gets
    /// the coloured line, and only if there is a file.
    pub open spec fn writes(
        self,
        level: LogLevel,
        module: Seq<char>,
        message: Seq<char>,
        timestamp: Timestamp,
        output: Option<LogOutput>,
    ) -> bool {
        if level.rank() < self.config.min_level.rank() {
            output is None
        } else {
            &&& output is Some
            &&& (output->0.console is Some) == self.config.console_output
            &&& self.config.console_output ==> output->0.console->0@ == if self.config.use_colors {
                coloured_line(level, module, message, timestamp.time@)
            } else {
                plain_line(level, module, message, timestamp.full@)
            }
            &&& (output->0.file is Some) == (self.config.file_output && self.log_path is Some)
            &&& output->0.file is Some ==> output->0.file->0@ == coloured_line(
                level,
                module,
                message,
                timestamp.time@,
            )
        }
    }

    /// What has to be written for a message of the given level, if
    /// anything.
    pub fn log(&self, level: LogLevel, module: &str, message: &str, timestamp: &Timestamp) -> (output:
        Option<LogOutput>)
        ensures
            self.writes(level, module@, message@, *timestamp, output),
    {
        if level.rank_value() < self.config.min_level.rank_value() {
            return None;
        }
        let console = if self.config.console_output {
            if self.config.use_colors {
                Some(self.format_message_colored(level, module, message, timestamp))
            } else {
                Some(self.format_message_plain(level, module, message, timestamp))
            }
        } else {
            None
        };
        let file = if self.config.file_output && self.log_path.is_some() {
            Some(self.format_message_colored(level, module, message, timestamp))
        } else {
            None
        };
        Some(LogOutput { console, file })
    }

    /// Lets messages from `Debug` on through if `enabled`, else from `Info`
    /// on.
    pub fn set_log_level(&mut self, enabled: bool)
        ensures
            final(self).config.min_level == if enabled {
                LogLevel::Debug
            } else {
                LogLevel::Info
            },
            final(self).config.console_output == old(self).config.console_output,
            final(self).config.file_output == old(self).config.file_output,
            final(self).config.use_colors == old(self).config.use_colors,
            final(self).log_path == old(self).log_path,
    {
        self.config.min_level = if enabled {
            LogLevel::Debug
        } else {
            LogLevel::Info
        };
    }
}

/// The directory of the log files below the application's cache directory.
pub fn get_log_dir(cache_root: &str) -> (dir: String)
    ensures
        dir@ == joined(cache_root@, "logs"@),
{
    join_path(cache_root, "logs")
}

/// The name of a log file that is begun at the given time, written as
/// `20240517_140359`.
pub fn log_file_name(started: &str) -> (name: String)
    ensures
        name@ == "armbian-imager_"@ + started@ + ".log"@,
{
    let mut name = "armbian-imager_".to_owned();
    name.append(started);
    name.append(".log");
    name
}

/// The file that the logger writes to, if it writes to one.
pub fn get_current_log_path(logger: &Logger) -> (path: Option<String>)
    ensures
        path == logger.log_path,
{
    logger.log_path.clone()
}

/// What is to be written for a debug message.
pub fn debug(logger: &Logger, module: &str, message: &str, timestamp: &Timestamp) -> (output: Option<
    LogOutput,
>)
    ensures
        logger.writes(LogLevel::Debug, module@, message@, *timestamp, output),
{
    logger.log(LogLevel::Debug, module, message, timestamp)
}

/// What is to be written for an informational message.
pub fn info(logger: &Logger, module: &str, message: &str, timestamp: &Timestamp) -> (output: Option<
    LogOutput,
>)
    ensures
        logger.writes(LogLevel::Info, module@, message@, *timestamp, output),
{
    logger.log(LogLevel::Info, module, message, timestamp)
}

/// What is to be written for a warning.
pub fn warn(logger: &Logger, module: &str, message: &str, timestamp: &Timestamp) -> (output: Option<
    LogOutput,
>)
    ensures
        logger.writes(LogLevel::Warn, module@, message@, *timestamp, output),
{
    logger.log(LogLevel::Warn, module, message, timestamp)
}

/// What is to be written for an error message.
pub fn error(logger: &Logger, module: &str, message: &str, timestamp: &Timestamp) -> (output: Option<
    LogOutput,
>)
    ensures
        logger.writes(LogLevel::Error, module@, message@, *timestamp, output),
{
    logger.log(LogLevel::Error, module, message, timestamp)
}

/// What tidying the log directory came to: how many old files were
/// deleted, or why the directory could not be read.
pub open spec fn cleanup_note(cleanup: Result<usize, String>) -> Option<(LogLevel, Seq<char>)> {
    match cleanup {
        Ok(deleted) => if deleted > 0 {
            Some((LogLevel::Info, "Cleaned up "@ + decimal(deleted as nat) + " old log files"@))
        } else {
            None
        },
        Err(reason) => Some((LogLevel::Warn, "Failed to cleanup old logs: "@ + reason@)),
    }
}

/// The messages with which a log begins: that logging has begun, where the
/// log file lies if there is one, and what tidying the log directory came
/// to if it came to anything.
pub open spec fn opening_messages(logger: Logger, cleanup: Result<usize, String>) -> Seq<
    (LogLevel, Seq<char>),
> {
    let begun = seq![(LogLevel::Info, "Armbian Imager logging initialized"@)];
    let file = match logger.log_path {
        Some(path) => seq![(LogLevel::Info, "Log file: "@ + path@)],
        None => Seq::empty(),
    };
    let tidied = match cleanup_note(cleanup) {
        Some(note) => seq![note],
        None => Seq::empty(),
    };
    begun + file + tidied
}

/// Begins the log: returns what is to be written for each of the opening
/// messages that the logger lets through, in order.  All of them come from
/// the module `logger`.
pub fn init(logger: &Logger, cleanup: &Result<usize, String>, timestamp: &Timestamp) -> (outputs: Vec<
    Option<LogOutput>,
>)
    ensures
        outputs@.len() == opening_messages(*logger, *cleanup).len(),
        forall|i: int|
            0 <= i < outputs@.len() ==> logger.writes(
                opening_messages(*logger, *cleanup)[i].0,
                "logger"@,
                opening_messages(*logger, *cleanup)[i].1,
                *timestamp,
                #[trigger] outputs@[i],
            ),
{
    let ghost expected = opening_messages(*logger, *cleanup);
    let mut outputs: Vec<Option<LogOutput>> = Vec::new();
    outputs.push(info(logger, "logger", "Armbian Imager logging initialized", timestamp));
    match &logger.log_path {
        Some(path) => {
            let mut message = "Log file: ".to_owned();
            message.append(path.as_str());
            outputs.push(info(logger, "logger", message.as_str(), timestamp));
        },
        None => {},
    }
    match cleanup {
        Ok(deleted) => {
            if *deleted > 0 {
                let mut message = "Cleaned up ".to_owned();
                let number = to_decimal(*deleted as u64);
                message.append(number.as_str());
                message.append(" old log files");
                outputs.push(info(logger, "logger", message.as_str(), timestamp));
            }
        },
        Err(reason) => {
            let mut message = "Failed to cleanup old logs: ".to_owned();
            message.append(reason.as_str());
            outputs.push(warn(logger, "logger", message.as_str(), timestamp));
        },
    }
    proof {
        assert(outputs@.len() == expected.len());
    }
    outputs
}

/// A file of the log directory.
#[derive(Debug)]
pub struct LogFile {
    /// Name of the file.
    pub name: String,
    /// When the file was last written, if that can be told.
    pub modified: Option<u64>,
}

/// Is the file a log file: does its name have the extension `log`?
pub open spec fn is_log_name(name: Seq<char>) -> bool {
    extension_of(name) == Some(seq!['l', 'o', 'g'])
}

/// Does `a` come before `b` when the newest file comes first?  A file
/// whose time cannot be told counts as older than any other, and of two
/// files of the same time the one listed first comes first.
pub open spec fn comes_before(files: Seq<LogFile>, a: int, b: int) -> bool {
    match (files[a].modified, files[b].modified) {
        (Some(x), Some(y)) => x > y || (x == y && a < b),
        (Some(_), None) => true,
        (None, Some(_)) => false,
        (None, None) => a < b,
    }
}

/// How many of the log files among the first `n` files come before file
/// `i`.
pub open spec fn newer_logs(files: Seq<LogFile>, i: int, n: int) -> nat
    decreases n,
{
    if n <= 0 {
        0
    } else {
        newer_logs(files, i, n - 1) + if is_log_name(files[n - 1].name@) && comes_before(
            files,
            n - 1,
            i,
        ) {
            1nat
        } else {
            0nat
        }
    }
}

/// Is file `i` a log file that has to go when the `keep_count` newest log
/// files are kept?
pub open spec fn is_old_log(files: Seq<LogFile>, i: int, keep_count: usize) -> bool {
    is_log_name(files[i].name@) && newer_logs(files, i, files.len() as int) >= keep_count
}

/// Does the name end in `.log`, with something before the dot?
pub fn is_log_file_name(name: &str) -> (is_log: bool)
    ensures
        is_log == is_log_name(name@),
{
    let chars = chars_of(name);
    let end: usize = chars.len();
    let start: usize = match extension_start(&chars) {
        Some(start) => start,
        None => {
            return false;
        },
    };
    let is_log = end - start == 3 && chars[start] == 'l' && chars[start + 1] == 'o' && chars[start
        + 2] == 'g';
    proof {
        assert(is_log == (chars@.skip(start as int) =~= seq!['l', 'o', 'g']));
    }
    is_log
}

/// Does file `a` come before file `b` when the newest file comes first?
pub fn is_before(files: &Vec<LogFile>, a: usize, b: usize) -> (before: bool)
    requires
        a < files.len(),
        b < files.len(),
    ensures
        before == comes_before(files@, a as int, b as int),
{
    match (files[a].modified, files[b].modified) {
        (Some(x), Some(y)) => x > y || (x == y && a < b),
        (Some(_), None) => true,
        (None, Some(_)) => false,
        (None, None) => a < b,
    }
}

/// The positions of the log files to delete so that the `keep_count`
/// newest are kept.  Files that are no log files stay.
pub fn cleanup_old_logs(files: &Vec<LogFile>, keep_count: usize) -> (old: Vec<usize>)
    ensures
        forall|k: int| 0 <= k < old@.len() ==> old@[k] < files.len() && is_old_log(
            files@,
            #[trigger] old@[k] as int,
            keep_count,
        ),
        forall|i: int|
            0 <= i < files.len() && is_old_log(files@, i, keep_count) ==> old@.contains(i as usize),
        forall|a: int, b: int| 0 <= a < b < old@.len() ==> old@[a] < old@[b],
{
    let mut is_log: Vec<bool> = Vec::new();
    let mut i: usize = 0;
    while i < files.len()
        invariant
            0 <= i <= files.len(),
            is_log.len() == i,
            forall|k: int| 0 <= k < i ==> is_log[k] == is_log_name(files[k].name@),
        decreases files.len() - i,
    {
        is_log.push(is_log_file_name(files[i].name.as_str()));
        i += 1;
    }
    let mut old: Vec<usize> = Vec::new();
    let mut i: usize = 0;
    while i < files.len()
        invariant
            0 <= i <= files.len(),
            is_log.len() == files.len(),
            forall|k: int| 0 <= k < files.len() ==> is_log[k] == is_log_name(files[k].name@),
            forall|k: int| 0 <= k < old@.len() ==> old@[k] < i && is_old_log(
                files@,
                #[trigger] old@[k] as int,
                keep_count,
            ),
            forall|j: int| 0 <= j < i && is_old_log(files@, j, keep_count) ==> old@.contains(
                j as usize,
            ),
            forall|a: int, b: int| 0 <= a < b < old@.len() ==> old@[a] < old@[b],
        decreases files.len() - i,
    {
        if is_log[i] {
            let mut newer: usize = 0;
            let mut j: usize = 0;
            while j < files.len()
                invariant
                    0 <= j <= files.len(),
                    i < files.len(),
                    is_log.len() == files.len(),
                    forall|k: int| 0 <= k < files.len() ==> is_log[k] == is_log_name(files[k].name@),
                    newer == newer_logs(files@, i as int, j as int),
                    newer <= j,
                decreases files.len() - j,
            {
                if is_log[j] && is_before(files, j, i) {
                    newer += 1;
                }
                j += 1;
            }
            if newer >= keep_count {
                let ghost before = old@;
                old.push(i);
                proof {
                    assert forall|m: int|
                        0 <= m < i + 1 && is_old_log(files@, m, keep_count) implies old@.contains(
                        m as usize,
                    ) by {
                        if m < i {
                            let k = choose|k: int| 0 <= k < before.len() && before[k] == m as usize;
                            assert(old@[k] == m as usize);
                        } else {
                            assert(old@[before.len() as int] == i);
                        }
                    }
                }
            }
        }
        i += 1;
    }
    old
}

/// How many bytes the log files take up together, where `sizes` lists the
/// size of each file of the log directory: nothing if there is none.
pub fn get_logs_size(sizes: &Vec<u64>) -> (size: u64)
    ensures
        size == capped_sum(sizes@),
{
    total_bytes(sizes)
}

} // verus!
