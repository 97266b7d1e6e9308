//! Command-line values that reach the library.
use vstd::prelude::*;

use crate::model::ResolveOverrides;

verus! {

/// Options of a run (`ls`, `start`, `kill`) as parsed from the command line.
#[derive(Debug, Default)]
pub struct RunOptions {
    /// Worktree name (sessions under worktree-{name}/…)
    pub worktree: Option<String>,
    /// Override config root for this run
    pub root: Option<String>,
    /// Worktree parent directory (relative to config root unless absolute)
    pub worktrees: Option<String>,
    /// Direct checkout root for worktree (no worktree name appended)
    pub worktree_root: Option<String>,
    /// Session prefix template; `{name}` is replaced with worktree name
    pub worktree_prefix: Option<String>,
    /// Override default window count
    pub windows: Option<u32>,
    /// Suppress per-session status lines
    pub quiet: bool,
}

impl RunOptions {
    /// The overrides these options give to a resolution.
    pub fn into_overrides(self) -> (o: ResolveOverrides)
        ensures
            o.root == self.root,
            o.worktree_parent == self.worktrees,
            o.worktree_root == self.worktree_root,
            o.worktree_prefix == self.worktree_prefix,
            o.windows == self.windows,
    {
        ResolveOverrides {
            root: self.root,
            worktree_parent: self.worktrees,
            worktree_root: self.worktree_root,
            worktree_prefix: self.worktree_prefix,
            windows: self.windows,
        }
    }
}

/// A parsed command line: the subcommand to run.
#[derive(Debug)]
pub struct Cli {
    pub command: Command,
}

/// The subcommands.
#[derive(Debug)]
pub enum Command {
    /// List configs, or entries for one config
    Ls { config: Option<String>, run: RunOptions },
    /// Create a new config
    New {
        config: String,
        root: Option<String>,
        windows: u32,
        worktrees: Option<String>,
        worktree_prefix: Option<String>,
    },
    /// Add an entry to a config
    Add { config: String, name: String, dir: String, windows: Option<u32>, cmd: Option<String> },
    /// Remove an entry from a config
    Rm { config: String, name: String },
    /// Delete a config
    Del { config: String },
    /// Start sessions (all entries, or matched patterns)
    Start { config: String, patterns: Vec<String>, run: RunOptions },
    /// Kill sessions (all entries, or matched patterns)
    Kill { config: String, patterns: Vec<String>, run: RunOptions },
    /// Open a config in $EDITOR
    Edit { config: Option<String> },
    /// Migrate legacy JSON config to TOML (one-time; merges into existing config.toml)
    Migrate { force: bool },
    /// Generate shell completions to stdout
    Completions { shell: Shell },
}

/// The shells completions can be written for.
#[derive(Debug, Clone, Copy, PartialEq, Eq)]
pub enum Shell {
    Bash,
    Zsh,
    Fish,
}

} // verus!
