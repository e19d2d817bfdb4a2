//! The parsed command line: which command runs, on what, and how its report
//! is printed.
use vstd::prelude::*;
use crate::replace::ReplaceOptions;
use crate::search::SearchOptions;
use crate::stats::StatsOptions;

verus! {

/// A parsed command line.
#[derive(Debug)]
pub struct Cli {
    pub command: Command,
}

/// The command to run.
#[derive(Debug)]
pub enum Command {
    /// Recursively search UTF-8 text files.
    Search(SearchArgs),
    /// Replace literal text in UTF-8 text files.
    Replace(ReplaceArgs),
    /// Show directory scan statistics.
    Stats(StatsArgs),
}

/// The arguments of `search`.
#[derive(Debug)]
pub struct SearchArgs {
    /// Literal text or regex pattern to find.
    pub pattern: String,
    /// File or directory to search.
    pub path: String,
    /// Perform a case-insensitive search.
    pub ignore_case: bool,
    /// Explicitly perform a case-sensitive search (the default).
    pub case_sensitive: bool,
    /// Interpret the pattern as a regular expression.
    pub regex: bool,
    /// Print one JSON report.
    pub json: bool,
}

/// The arguments of `replace`.
#[derive(Debug)]
pub struct ReplaceArgs {
    /// Literal text to replace.
    pub old_text: String,
    /// Replacement text.
    pub new_text: String,
    /// File or directory to process.
    pub path: String,
    /// Report changes without writing files.
    pub dry_run: bool,
    /// Create a `.bak` file before changing each file.
    pub backup: bool,
    /// Print one JSON report.
    pub json: bool,
}

/// The arguments of `stats`.
#[derive(Debug)]
pub struct StatsArgs {
    /// File or directory to inspect.
    pub path: String,
    /// Print one JSON report.
    pub json: bool,
}

impl Cli {
    /// Whether the command asked for a JSON report; errors are then printed
    /// as JSON too.
    pub fn wants_json(&self) -> (r: bool)
        ensures
            r == match self.command {
                Command::Search(args) => args.json,
                Command::Replace(args) => args.json,
                Command::Stats(args) => args.json,
            },
    {
        match &self.command {
            Command::Search(args) => args.json,
            Command::Replace(args) => args.json,
            Command::Stats(args) => args.json,
        }
    }
}

impl SearchArgs {
    /// The options of the search these arguments ask for.
    pub fn into_options(self) -> (o: SearchOptions)
        ensures
            o.pattern == self.pattern,
            o.path == self.path,
            o.ignore_case == self.ignore_case,
            o.regex == self.regex,
    {
        SearchOptions {
            pattern: self.pattern,
            path: self.path,
            ignore_case: self.ignore_case,
            regex: self.regex,
        }
    }
}

impl ReplaceArgs {
    /// The options of the replacement these arguments ask for.
    pub fn into_options(self) -> (o: ReplaceOptions)
        ensures
            o.old_text == self.old_text,
            o.new_text == self.new_text,
            o.path == self.path,
            o.dry_run == self.dry_run,
            o.backup == self.backup,
    {
        ReplaceOptions {
            old_text: self.old_text,
            new_text: self.new_text,
            path: self.path,
            dry_run: self.dry_run,
            backup: self.backup,
        }
    }
}

impl StatsArgs {
    /// The options of the count these arguments ask for.
    pub fn into_options(self) -> (o: StatsOptions)
        ensures
            o.path == self.path,
    {
        StatsOptions { path: self.path }
    }
}

} // verus!
