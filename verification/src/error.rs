//! The errors that stop a command before any file is processed.
use vstd::prelude::*;

verus! {

/// Why a command could not run.
#[derive(Debug)]
pub enum ToolError {
    /// The root path does not exist.
    PathNotFound(String),
    /// The root path is neither a file nor a directory.
    NotFileOrDirectory(String),
    /// The pattern is not a valid regular expression; `cause` is the
    /// regular-expression engine's own message.
    InvalidPattern { pattern: String, cause: String },
    /// The text to replace is empty.
    EmptyOldText,
    /// The text to replace holds a line break.
    OldTextHasLineBreak,
    /// The replacement holds a line break.
    NewTextHasLineBreak,
}

/// The message that a command prints for an error.
pub open spec fn error_message(e: ToolError) -> Seq<char> {
    match e {
        ToolError::PathNotFound(p) => "Path does not exist: "@ + p@,
        ToolError::NotFileOrDirectory(p) => "Path is neither a file nor a directory: "@ + p@,
        ToolError::InvalidPattern { pattern, cause } => "Invalid regex pattern: "@ + pattern@
            + ": "@ + cause@,
        ToolError::EmptyOldText => "oldText cannot be empty"@,
        ToolError::OldTextHasLineBreak =>
            "oldText cannot contain line breaks because replacements are line-oriented"@,
        ToolError::NewTextHasLineBreak =>
            "newText cannot contain line breaks because replacements are line-oriented"@,
    }
}

/// The error's own text, without the cause behind it: for an invalid
/// pattern only the pattern is named; every other error has no cause, so
/// this is its whole message.
pub open spec fn error_context(e: ToolError) -> Seq<char> {
    match e {
        ToolError::InvalidPattern { pattern, .. } => "Invalid regex pattern: "@ + pattern@,
        _ => error_message(e),
    }
}

/// The text of what caused the error, where another part reported it: the
/// regular-expression engine's message for an invalid pattern.
pub open spec fn error_cause(e: ToolError) -> Option<Seq<char>> {
    match e {
        ToolError::InvalidPattern { cause, .. } => Some(cause@),
        _ => None,
    }
}

impl ToolError {
    /// The error's own text, without its cause (see `error_context`).
    pub fn context(&self) -> (m: String)
        ensures
            m@ == error_context(*self),
    {
        match self {
            ToolError::InvalidPattern { pattern, .. } => {
                let mut m = "Invalid regex pattern: ".to_owned();
                m.append(pattern.as_str());
                m
            },
            _ => self.message(),
        }
    }

    /// The text of what caused the error, if another part reported it.
    pub fn cause(&self) -> (c: Option<String>)
        ensures
            match c {
                Some(t) => error_cause(*self) == Some(t@),
                None => error_cause(*self) is None,
            },
    {
        match self {
            ToolError::InvalidPattern { cause, .. } => Some(cause.clone()),
            _ => None,
        }
    }

    /// The message that a command prints for this error.
    pub fn message(&self) -> (m: String)
        ensures
            m@ == error_message(*self),
    {
        match self {
            ToolError::PathNotFound(p) => {
                let mut m = "Path does not exist: ".to_owned();
                m.append(p.as_str());
                m
            },
            ToolError::NotFileOrDirectory(p) => {
                let mut m = "Path is neither a file nor a directory: ".to_owned();
                m.append(p.as_str());
                m
            },
            ToolError::InvalidPattern { pattern, cause } => {
                let mut m = "Invalid regex pattern: ".to_owned();
                m.append(pattern.as_str());
                m.append(": ");
                m.append(cause.as_str());
                m
            },
            ToolError::EmptyOldText => "oldText cannot be empty".to_owned(),
            ToolError::OldTextHasLineBreak =>
                "oldText cannot contain line breaks because replacements are line-oriented".to_owned(),
            ToolError::NewTextHasLineBreak =>
                "newText cannot contain line breaks because replacements are line-oriented".to_owned(),
        }
    }
}

/// The full message of an error is its own text, followed by its cause
/// after a colon where it has one.
pub proof fn lemma_message_is_context_and_cause(e: ToolError)
    ensures
        error_message(e) == match error_cause(e) {
            Some(c) => error_context(e) + ": "@ + c,
            None => error_context(e),
        },
{
}

/// What the root of a scan is.
#[derive(Debug, PartialEq, Eq, Clone, Copy)]
pub enum RootKind {
    /// A single file, scanned alone.
    File,
    /// A directory, walked recursively.
    Directory,
}

/// Decides from what the file system says of the root whether and how it is
/// scanned.
pub fn classify_root(root: &str, exists: bool, is_file: bool, is_dir: bool) -> (r: Result<
    RootKind,
    ToolError,
>)
    ensures
        !exists ==> (r matches Err(ToolError::PathNotFound(p)) && p@ == root@),
        exists && is_file ==> r == Ok::<RootKind, ToolError>(RootKind::File),
        exists && !is_file && is_dir ==> r == Ok::<RootKind, ToolError>(RootKind::Directory),
        exists && !is_file && !is_dir ==> (r matches Err(ToolError::NotFileOrDirectory(p)) && p@
            == root@),
{
    if !exists {
        Err(ToolError::PathNotFound(root.to_owned()))
    } else if is_file {
        Ok(RootKind::File)
    } else if !is_dir {
        Err(ToolError::NotFileOrDirectory(root.to_owned()))
    } else {
        Ok(RootKind::Directory)
    }
}

} // verus!
