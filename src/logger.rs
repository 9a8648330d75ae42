//! What a log line says and where it goes. Writing it, and the process-wide
//! logger, belong to the program around the library.
use vstd::prelude::*;
use vstd::string::StringExecFns;

verus! {

/// The kind of a log line; benchmark lines go to a file of their own.
#[derive(Clone, Copy, Debug)]
pub enum LoggingKeyword {
    INFO,
    ERROR,
    DEBUG,
    BENCHMARK,
}

/// The word that a log line shows for a keyword.
pub open spec fn keyword_text(k: LoggingKeyword) -> Seq<char> {
    match k {
        LoggingKeyword::INFO => "INFO"@,
        LoggingKeyword::ERROR => "ERROR"@,
        LoggingKeyword::DEBUG => "DEBUG"@,
        LoggingKeyword::BENCHMARK => "BENCHMARK"@,
    }
}

impl LoggingKeyword {
    /// The word that a log line shows for this keyword.
    pub fn as_str(&self) -> (r: &'static str)
        ensures
            r@ == keyword_text(*self),
    {
        match self {
            LoggingKeyword::INFO => "INFO",
            LoggingKeyword::ERROR => "ERROR",
            LoggingKeyword::DEBUG => "DEBUG",
            LoggingKeyword::BENCHMARK => "BENCHMARK",
        }
    }
}

/// The directory that log files go to.
pub open spec fn log_directory_text() -> Seq<char> {
    "build/logs/dalek"@
}

/// The directory that benchmark summaries go to.
pub open spec fn results_directory_text() -> Seq<char> {
    "build/benchmark_results/dalek"@
}

/// A log's level and the files that its lines go to.
pub struct Logger {
    log_level: LoggingKeyword,
    log_directory: String,
    log_filename: String,
    benchmark_filename: String,
}

impl Logger {
    /// The level that the logger was set to.
    pub closed spec fn level(self) -> LoggingKeyword {
        self.log_level
    }

    /// The directory of the log files.
    pub closed spec fn directory(self) -> Seq<char> {
        self.log_directory@
    }

    /// The file that lines other than benchmark lines go to.
    pub closed spec fn log_file(self) -> Seq<char> {
        self.log_filename@
    }

    /// The file that benchmark lines go to.
    pub closed spec fn benchmark_file(self) -> Seq<char> {
        self.benchmark_filename@
    }

    /// A logger whose files are named after the time it was made, given as text.
    pub fn new(log_level: LoggingKeyword, timestamp: &str) -> (r: Logger)
        ensures
            r.level() == log_level,
            r.directory() == log_directory_text(),
            r.log_file() == "log_"@ + timestamp@ + ".txt"@,
            r.benchmark_file() == "benchmark_results_"@ + timestamp@ + ".txt"@,
    {
        let log_directory = String::from_str("build/logs/dalek");
        let log_filename = String::from_str("log_").concat(timestamp).concat(".txt");
        let benchmark_filename = String::from_str("benchmark_results_").concat(timestamp).concat(
            ".txt",
        );
        Logger { log_level, log_directory, log_filename, benchmark_filename }
    }

    /// Sets the level and keeps the files.
    pub fn set_log_level(&mut self, log_level: LoggingKeyword)
        ensures
            final(self).level() == log_level,
            final(self).directory() == old(self).directory(),
            final(self).log_file() == old(self).log_file(),
            final(self).benchmark_file() == old(self).benchmark_file(),
    {
        self.log_level = log_level;
    }

    /// The path of the file that a line of this keyword goes to.
    pub fn log_path(&self, keyword: LoggingKeyword) -> (r: String)
        ensures
            r@ == self.directory() + "/"@ + (if keyword is BENCHMARK {
                self.benchmark_file()
            } else {
                self.log_file()
            }),
    {
        let filename: &str = match keyword {
            LoggingKeyword::BENCHMARK => self.benchmark_filename.as_str(),
            _ => self.log_filename.as_str(),
        };
        self.log_directory.clone().concat("/").concat(filename)
    }

    /// A log line: `[KEYWORD - timestamp] message` and a line break.
    pub fn format_line(keyword: LoggingKeyword, timestamp: &str, message: &str) -> (r: String)
        ensures
            r@ == "["@ + keyword_text(keyword) + " - "@ + timestamp@ + "] "@ + message@ + "\n"@,
    {
        String::from_str("[").concat(keyword.as_str()).concat(" - ").concat(timestamp).concat(
            "] ",
        ).concat(message).concat("\n")
    }

    /// The path that a benchmark summary of this file name is written to.
    pub fn results_path(filename: &str) -> (r: String)
        ensures
            r@ == results_directory_text() + "/"@ + filename@,
    {
        String::from_str("build/benchmark_results/dalek").concat("/").concat(filename)
    }
}

} // verus!
