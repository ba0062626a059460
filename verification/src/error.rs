//! The failures that sorting can meet, and how each is worded.

use vstd::prelude::*;

verus! {

/// A failure, either of a whole call or of the handling of one entry.
#[derive(Debug, PartialEq, Eq)]
pub enum Error {
    /// An input or output operation failed; the text describes it.
    Io(String),
    /// The store that keeps the mappings could not be read or written.
    Db(String),
    /// The platform names no desktop directory.
    DesktopNotFound,
    /// The platform names no configuration directory.
    ConfigDirNotFound,
    /// The directory to scan does not exist.
    DirectoryNotFound(String),
    /// The destination directory `path` could not be created.
    DirectoryCreateFailed { path: String, reason: String },
    /// The entry at `source` could not be moved.
    MoveFailed { source: String, reason: String },
    /// An entry of the scanned directory could not be read.
    EntryUnreadable(String),
}

/// An `Error` with its texts as character sequences.
pub enum ErrorView {
    Io(Seq<char>),
    Db(Seq<char>),
    DesktopNotFound,
    ConfigDirNotFound,
    DirectoryNotFound(Seq<char>),
    DirectoryCreateFailed { path: Seq<char>, reason: Seq<char> },
    MoveFailed { source: Seq<char>, reason: Seq<char> },
    EntryUnreadable(Seq<char>),
}

impl ErrorView {
    /// The sentence shown for this failure.
    pub open spec fn message(self) -> Seq<char> {
        match self {
            ErrorView::Io(reason) => "IO error: "@ + reason,
            ErrorView::Db(reason) => "Database error: "@ + reason,
            ErrorView::DesktopNotFound => "Desktop path not found"@,
            ErrorView::ConfigDirNotFound => "Config directory not found"@,
            ErrorView::DirectoryNotFound(path) => "Directory not found: "@ + path,
            ErrorView::DirectoryCreateFailed { path, reason } => "Failed to create target directory: "@
                + path,
            ErrorView::MoveFailed { source, reason } => "Failed to move "@ + source + ": "@ + reason,
            ErrorView::EntryUnreadable(reason) => "Failed to read entry: "@ + reason,
        }
    }

    /// Whether this failure ends a whole call; the others are recorded for
    /// one entry while the rest of the batch goes on.
    pub open spec fn is_fatal(self) -> bool {
        !(self is DirectoryCreateFailed || self is MoveFailed || self is EntryUnreadable)
    }
}

impl View for Error {
    type V = ErrorView;

    open spec fn view(&self) -> ErrorView {
        match self {
            Error::Io(reason) => ErrorView::Io(reason@),
            Error::Db(reason) => ErrorView::Db(reason@),
            Error::DesktopNotFound => ErrorView::DesktopNotFound,
            Error::ConfigDirNotFound => ErrorView::ConfigDirNotFound,
            Error::DirectoryNotFound(path) => ErrorView::DirectoryNotFound(path@),
            Error::DirectoryCreateFailed { path, reason } => ErrorView::DirectoryCreateFailed {
                path: path@,
                reason: reason@,
            },
            Error::MoveFailed { source, reason } => ErrorView::MoveFailed {
                source: source@,
                reason: reason@,
            },
            Error::EntryUnreadable(reason) => ErrorView::EntryUnreadable(reason@),
        }
    }
}

impl Error {
    /// The sentence shown for this failure.
    pub fn message(&self) -> (text: String)
        ensures
            text@ == self@.message(),
    {
        match self {
            Error::Io(reason) => "IO error: ".to_owned().concat(reason.as_str()),
            Error::Db(reason) => "Database error: ".to_owned().concat(reason.as_str()),
            Error::DesktopNotFound => "Desktop path not found".to_owned(),
            Error::ConfigDirNotFound => "Config directory not found".to_owned(),
            Error::DirectoryNotFound(path) => "Directory not found: ".to_owned().concat(
                path.as_str(),
            ),
            Error::DirectoryCreateFailed { path, reason } => {
                "Failed to create target directory: ".to_owned().concat(path.as_str())
            },
            Error::MoveFailed { source, reason } => "Failed to move ".to_owned().concat(
                source.as_str(),
            ).concat(": ").concat(reason.as_str()),
            Error::EntryUnreadable(reason) => "Failed to read entry: ".to_owned().concat(
                reason.as_str(),
            ),
        }
    }
}

} // verus!
