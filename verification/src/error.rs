//! The errors of the library's operations, with the messages they print as.
use vstd::prelude::*;

use crate::text::{concat2, concat3, owned};

verus! {

/// Why an operation of the library failed.
#[derive(Debug, PartialEq, Eq)]
pub enum Error {
    /// The home directory is needed and could not be determined.
    HomeNotFound,
    /// The named config has no root and none was given.
    ConfigHasNoRoot(String),
    /// The entry directory is relative and there is no root to resolve it against.
    EntryNeedsRoot(String),
    /// The named worktree needs a worktree parent and none is configured.
    WorktreeNeedsParent(String),
    /// No config of that name exists.
    ConfigNotFound(String),
    /// A config of that name already exists.
    ConfigExists(String),
    /// The entry key already exists in the config.
    EntryExists { entry: String, config: String },
    /// The entry key does not exist in the config.
    EntryNotFound { entry: String, config: String },
    /// The config has no root, so a new entry needs an absolute directory.
    RootlessNeedsAbsolute(String),
    /// The legacy store holds no configs.
    LegacyHasNoProjects,
}

/// The mathematical value of an [`Error`].
pub enum ErrorView {
    HomeNotFound,
    ConfigHasNoRoot(Seq<char>),
    EntryNeedsRoot(Seq<char>),
    WorktreeNeedsParent(Seq<char>),
    ConfigNotFound(Seq<char>),
    ConfigExists(Seq<char>),
    EntryExists { entry: Seq<char>, config: Seq<char> },
    EntryNotFound { entry: Seq<char>, config: Seq<char> },
    RootlessNeedsAbsolute(Seq<char>),
    LegacyHasNoProjects,
}

impl View for Error {
    type V = ErrorView;

    open spec fn view(&self) -> ErrorView {
        match self {
            Error::HomeNotFound => ErrorView::HomeNotFound,
            Error::ConfigHasNoRoot(c) => ErrorView::ConfigHasNoRoot(c@),
            Error::EntryNeedsRoot(e) => ErrorView::EntryNeedsRoot(e@),
            Error::WorktreeNeedsParent(w) => ErrorView::WorktreeNeedsParent(w@),
            Error::ConfigNotFound(c) => ErrorView::ConfigNotFound(c@),
            Error::ConfigExists(c) => ErrorView::ConfigExists(c@),
            Error::EntryExists { entry, config } => ErrorView::EntryExists {
                entry: entry@,
                config: config@,
            },
            Error::EntryNotFound { entry, config } => ErrorView::EntryNotFound {
                entry: entry@,
                config: config@,
            },
            Error::RootlessNeedsAbsolute(c) => ErrorView::RootlessNeedsAbsolute(c@),
            Error::LegacyHasNoProjects => ErrorView::LegacyHasNoProjects,
        }
    }
}

/// The text an error prints as.
pub open spec fn error_message(e: ErrorView) -> Seq<char> {
    match e {
        ErrorView::HomeNotFound => "home directory not found"@,
        ErrorView::ConfigHasNoRoot(c) => "config '"@ + c + "' has no root"@,
        ErrorView::EntryNeedsRoot(d) => "entry '"@ + d + "' requires a root directory"@,
        ErrorView::WorktreeNeedsParent(w) => "worktree '"@ + w
            + "' requires worktree_parent in config or --worktrees"@,
        ErrorView::ConfigNotFound(c) => "config '"@ + c + "' not found"@,
        ErrorView::ConfigExists(c) => "config '"@ + c + "' already exists"@,
        ErrorView::EntryExists { entry, config } => "entry '"@ + entry
            + "' already exists in config '"@ + config + "'"@,
        ErrorView::EntryNotFound { entry, config } => "entry '"@ + entry
            + "' not found in config '"@ + config + "'"@,
        ErrorView::RootlessNeedsAbsolute(c) => "config '"@ + c
            + "' has no root; use an absolute directory"@,
        ErrorView::LegacyHasNoProjects => "legacy config has no projects in configs{}"@,
    }
}

impl Error {
    /// The text this error prints as.
    pub fn message(&self) -> (m: String)
        ensures
            m@ == error_message(self@),
    {
        match self {
            Error::HomeNotFound => owned("home directory not found"),
            Error::ConfigHasNoRoot(c) => concat3("config '", c.as_str(), "' has no root"),
            Error::EntryNeedsRoot(d) => concat3("entry '", d.as_str(), "' requires a root directory"),
            Error::WorktreeNeedsParent(w) => concat3(
                "worktree '",
                w.as_str(),
                "' requires worktree_parent in config or --worktrees",
            ),
            Error::ConfigNotFound(c) => concat3("config '", c.as_str(), "' not found"),
            Error::ConfigExists(c) => concat3("config '", c.as_str(), "' already exists"),
            Error::EntryExists { entry, config } => {
                let head = concat3("entry '", entry.as_str(), "' already exists in config '");
                concat3(head.as_str(), config.as_str(), "'")
            },
            Error::EntryNotFound { entry, config } => {
                let head = concat3("entry '", entry.as_str(), "' not found in config '");
                concat3(head.as_str(), config.as_str(), "'")
            },
            Error::RootlessNeedsAbsolute(c) => concat3(
                "config '",
                c.as_str(),
                "' has no root; use an absolute directory",
            ),
            Error::LegacyHasNoProjects => owned("legacy config has no projects in configs{}"),
        }
    }
}

} // verus!
