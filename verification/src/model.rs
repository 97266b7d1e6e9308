//! The configuration model: a store of named configs, each with a root, a
//! default window count, worktree settings and named entries; and the
//! resolution of a config's entries into tmux sessions.
use indexmap::IndexMap;
use vstd::prelude::*;

use crate::error::{Error, ErrorView};
use crate::ordered::{
    entry_items, entry_map_get_index, entry_map_len, entry_map_new, lookup, worktree_items,
    worktree_map_get, worktree_map_new,
};
use crate::paths::{
    lemma_body_empty_and_dot, lemma_body_single, lemma_components_join, lemma_components_well_formed,
    well_formed_components, body_components, is_body_component, components, path_components, path_strip_prefix, strip_prefix, expand_path_in, expand_path_spec, home_dir_from_env, is_absolute, is_absolute_path, join,
    opt_string_view, opt_view, path_join, path_result_view, tilde, tilde_slash,
};
use crate::text::{has_char, views, chars_eq, chars_of, chars_replace_all, concat3, owned, replace_all, string_from_chars};

verus! {

broadcast use vstd::string::group_string_axioms;

/// Window count of a config that does not set one.
pub const DEFAULT_WINDOWS: u32 = 2;

/// Session prefix template of a worktree; `{name}` is the worktree's name.
pub const DEFAULT_WORKTREE_PREFIX: &'static str = "worktree-{name}";

/// All configs, by name, in the order they were written.
#[derive(Debug)]
pub struct Store {
    pub configs: IndexMap<String, Config>,
}

/// One config (project): where it lives, how many windows its sessions get,
/// where its worktrees live, and its entries.
#[derive(Debug)]
pub struct Config {
    pub root: Option<String>,
    pub windows: u32,
    /// Parent directory for worktrees, relative to config root unless absolute.
    pub worktree_parent: Option<String>,
    pub worktree_prefix: Option<String>,
    pub entries: IndexMap<String, Entry>,
    pub worktrees: IndexMap<String, WorktreeOverrides>,
}

/// Settings of one worktree that override the config's.
#[derive(Debug, PartialEq, Eq)]
pub struct WorktreeOverrides {
    pub root: Option<String>,
    pub windows: Option<u32>,
    pub worktree_parent: Option<String>,
}

/// One entry: a directory, or a directory with window layout and command.
#[derive(Debug, PartialEq, Eq)]
pub enum Entry {
    Simple(String),
    Detailed(EntryOptions),
}

#[derive(Debug, PartialEq, Eq)]
pub struct EntryOptions {
    pub dir: String,
    pub windows: Option<WindowsSpec>,
    pub cmd: Option<String>,
}

/// The windows of a session: a count of plain windows, or one description
/// per window.
#[derive(Debug, PartialEq, Eq)]
pub enum WindowsSpec {
    Count(u32),
    Detailed(Vec<WindowSpec>),
}

/// One window: a command run in its single pane, or a name and its panes.
#[derive(Debug, PartialEq, Eq)]
pub enum WindowSpec {
    Command(String),
    Detailed { name: Option<String>, panes: Vec<PaneSpec> },
}

/// One pane: a command, or a command with directory and split direction.
#[derive(Debug, PartialEq, Eq)]
pub enum PaneSpec {
    Command(String),
    Detailed { cmd: Option<String>, dir: Option<String>, split: Option<SplitDirection> },
}

#[derive(Debug, Clone, Copy, PartialEq, Eq)]
pub enum SplitDirection {
    Horizontal,
    Vertical,
}

/// Values given on the command line for one run, which take precedence over
/// the config.
#[derive(Debug, PartialEq, Eq)]
pub struct ResolveOverrides {
    pub root: Option<String>,
    pub worktree_parent: Option<String>,
    pub worktree_root: Option<String>,
    pub worktree_prefix: Option<String>,
    pub windows: Option<u32>,
}

/// What a resolution is for: the config's name, the worktree if any, and the
/// run's overrides.
pub struct ResolveContext<'a> {
    pub config_name: &'a str,
    pub worktree: Option<&'a str>,
    pub overrides: ResolveOverrides,
}

/// An entry resolved into a session: its key, session name, directory,
/// windows and command.
#[derive(Debug, PartialEq, Eq)]
pub struct ResolvedEntry {
    pub key: String,
    pub session_name: String,
    pub directory: String,
    pub windows: WindowsSpec,
    pub cmd: Option<String>,
}

/// The window count of a config that does not set one.
pub fn default_windows() -> (n: u32)
    ensures
        n == DEFAULT_WINDOWS,
{
    DEFAULT_WINDOWS
}

/// The mathematical value of a [`PaneSpec`].
pub enum PaneView {
    Command(Seq<char>),
    Detailed { cmd: Option<Seq<char>>, dir: Option<Seq<char>>, split: Option<SplitDirection> },
}

/// The mathematical value of a [`WindowSpec`].
pub enum WindowView {
    Command(Seq<char>),
    Detailed { name: Option<Seq<char>>, panes: Seq<PaneView> },
}

/// The mathematical value of a [`WindowsSpec`].
pub enum WindowsView {
    Count(u32),
    Detailed(Seq<WindowView>),
}

impl View for PaneSpec {
    type V = PaneView;

    open spec fn view(&self) -> PaneView {
        match self {
            PaneSpec::Command(c) => PaneView::Command(c@),
            PaneSpec::Detailed { cmd, dir, split } => PaneView::Detailed {
                cmd: opt_string_view(*cmd),
                dir: opt_string_view(*dir),
                split: *split,
            },
        }
    }
}

pub open spec fn pane_views(panes: Seq<PaneSpec>) -> Seq<PaneView> {
    panes.map_values(|p: PaneSpec| p@)
}

impl View for WindowSpec {
    type V = WindowView;

    open spec fn view(&self) -> WindowView {
        match self {
            WindowSpec::Command(c) => WindowView::Command(c@),
            WindowSpec::Detailed { name, panes } => WindowView::Detailed {
                name: opt_string_view(*name),
                panes: pane_views(panes@),
            },
        }
    }
}

pub open spec fn window_views(ws: Seq<WindowSpec>) -> Seq<WindowView> {
    ws.map_values(|w: WindowSpec| w@)
}

impl View for WindowsSpec {
    type V = WindowsView;

    open spec fn view(&self) -> WindowsView {
        match self {
            WindowsSpec::Count(n) => WindowsView::Count(*n),
            WindowsSpec::Detailed(ws) => WindowsView::Detailed(window_views(ws@)),
        }
    }
}

pub open spec fn opt_windows_view(w: Option<WindowsSpec>) -> Option<WindowsView> {
    match w {
        Some(w) => Some(w@),
        None => None,
    }
}

/// A fresh copy of an optional string.
pub fn copy_opt(o: &Option<String>) -> (r: Option<String>)
    ensures
        opt_string_view(r) == opt_string_view(*o),
{
    match o {
        Some(s) => Some(owned(s.as_str())),
        None => None,
    }
}

impl Clone for PaneSpec {
    fn clone(&self) -> (r: Self)
        ensures
            r@ == self@,
    {
        match self {
            PaneSpec::Command(c) => PaneSpec::Command(owned(c.as_str())),
            PaneSpec::Detailed { cmd, dir, split } => PaneSpec::Detailed {
                cmd: copy_opt(cmd),
                dir: copy_opt(dir),
                split: *split,
            },
        }
    }
}

fn copy_panes(panes: &Vec<PaneSpec>) -> (r: Vec<PaneSpec>)
    ensures
        pane_views(r@) == pane_views(panes@),
{
    let mut r: Vec<PaneSpec> = Vec::new();
    let mut i: usize = 0;
    while i < panes.len()
        invariant
            i <= panes.len(),
            r@.len() == i,
            forall|j: int| 0 <= j < i ==> #[trigger] r@[j]@ == panes@[j]@,
        decreases panes.len() - i,
    {
        let p = panes[i].clone();
        r.push(p);
        i = i + 1;
    }
    assert(pane_views(r@) =~= pane_views(panes@));
    r
}

impl WindowSpec {
    /// The window's name, if it has one.
    pub fn name(&self) -> (r: Option<&str>)
        ensures
            opt_view(r) == window_name(self@),
    {
        match self {
            WindowSpec::Command(_) => None,
            WindowSpec::Detailed { name, .. } => match name {
                Some(n) => Some(n.as_str()),
                None => None,
            },
        }
    }

    /// The window's panes: a command window has the single pane that runs it.
    pub fn panes(&self) -> (r: Vec<PaneSpec>)
        ensures
            pane_views(r@) == window_panes(self@),
    {
        match self {
            WindowSpec::Command(c) => {
                let mut v: Vec<PaneSpec> = Vec::new();
                v.push(PaneSpec::Command(owned(c.as_str())));
                assert(pane_views(v@) =~= seq![PaneView::Command(c@)]);
                v
            },
            WindowSpec::Detailed { panes, .. } => copy_panes(panes),
        }
    }
}

pub open spec fn window_name(w: WindowView) -> Option<Seq<char>> {
    match w {
        WindowView::Command(_) => None,
        WindowView::Detailed { name, .. } => name,
    }
}

pub open spec fn window_panes(w: WindowView) -> Seq<PaneView> {
    match w {
        WindowView::Command(c) => seq![PaneView::Command(c)],
        WindowView::Detailed { panes, .. } => panes,
    }
}

impl Clone for WindowSpec {
    fn clone(&self) -> (r: Self)
        ensures
            r@ == self@,
    {
        match self {
            WindowSpec::Command(c) => WindowSpec::Command(owned(c.as_str())),
            WindowSpec::Detailed { name, panes } => WindowSpec::Detailed {
                name: copy_opt(name),
                panes: copy_panes(panes),
            },
        }
    }
}

impl Clone for WindowsSpec {
    fn clone(&self) -> (r: Self)
        ensures
            r@ == self@,
    {
        match self {
            WindowsSpec::Count(n) => WindowsSpec::Count(*n),
            WindowsSpec::Detailed(ws) => {
                let mut r: Vec<WindowSpec> = Vec::new();
                let mut i: usize = 0;
                while i < ws.len()
                    invariant
                        i <= ws.len(),
                        r@.len() == i,
                        forall|j: int| 0 <= j < i ==> #[trigger] r@[j]@ == ws@[j]@,
                    decreases ws.len() - i,
                {
                    let w = ws[i].clone();
                    r.push(w);
                    i = i + 1;
                }
                assert(window_views(r@) =~= window_views(ws@));
                WindowsSpec::Detailed(r)
            },
        }
    }
}

/// The directory of an entry.
pub open spec fn entry_dir(e: Entry) -> Seq<char> {
    match e {
        Entry::Simple(d) => d@,
        Entry::Detailed(o) => o.dir@,
    }
}

/// The window layout of an entry, if it sets one.
pub open spec fn entry_windows(e: Entry) -> Option<WindowsView> {
    match e {
        Entry::Simple(_) => None,
        Entry::Detailed(o) => opt_windows_view(o.windows),
    }
}

/// The command of an entry, if it sets one.
pub open spec fn entry_cmd(e: Entry) -> Option<Seq<char>> {
    match e {
        Entry::Simple(_) => None,
        Entry::Detailed(o) => opt_string_view(o.cmd),
    }
}

impl Entry {
    pub fn dir(&self) -> (r: &String)
        ensures
            r@ == entry_dir(*self),
    {
        match self {
            Entry::Simple(path) => path,
            Entry::Detailed(opts) => &opts.dir,
        }
    }

    pub fn windows(&self) -> (r: Option<WindowsSpec>)
        ensures
            opt_windows_view(r) == entry_windows(*self),
    {
        match self {
            Entry::Simple(_) => None,
            Entry::Detailed(opts) => match &opts.windows {
                Some(w) => Some(w.clone()),
                None => None,
            },
        }
    }

    pub fn cmd(&self) -> (r: Option<&str>)
        ensures
            opt_view(r) == entry_cmd(*self),
    {
        match self {
            Entry::Simple(_) => None,
            Entry::Detailed(opts) => match &opts.cmd {
                Some(c) => Some(c.as_str()),
                None => None,
            },
        }
    }

    pub fn from_dir(dir: String) -> (e: Self)
        ensures
            e == Entry::Simple(dir),
    {
        Entry::Simple(dir)
    }
}

impl Config {
    /// A config with the given root and window count, no worktree settings and
    /// no entries.
    pub fn new(root: Option<String>, windows: u32) -> (c: Self)
        ensures
            c.root == root,
            c.windows == windows,
            c.worktree_parent is None,
            c.worktree_prefix is None,
            entry_items(c.entries).len() == 0,
            worktree_items(c.worktrees).len() == 0,
    {
        Config {
            root,
            windows,
            worktree_parent: None,
            worktree_prefix: None,
            entries: entry_map_new(),
            worktrees: worktree_map_new(),
        }
    }
}

impl Default for WorktreeOverrides {
    fn default() -> (w: Self)
        ensures
            w.root is None,
            w.windows is None,
            w.worktree_parent is None,
    {
        WorktreeOverrides { root: None, windows: None, worktree_parent: None }
    }
}

impl Default for ResolveOverrides {
    fn default() -> (o: Self)
        ensures
            o.root is None,
            o.worktree_parent is None,
            o.worktree_root is None,
            o.worktree_prefix is None,
            o.windows is None,
    {
        ResolveOverrides {
            root: None,
            worktree_parent: None,
            worktree_root: None,
            worktree_prefix: None,
            windows: None,
        }
    }
}

/// The mathematical value of a [`ResolvedEntry`].
pub struct ResolvedView {
    pub key: Seq<char>,
    pub session_name: Seq<char>,
    pub directory: Seq<char>,
    pub windows: WindowsView,
    pub cmd: Option<Seq<char>>,
}

impl View for ResolvedEntry {
    type V = ResolvedView;

    open spec fn view(&self) -> ResolvedView {
        ResolvedView {
            key: self.key@,
            session_name: self.session_name@,
            directory: self.directory@,
            windows: self.windows@,
            cmd: opt_string_view(self.cmd),
        }
    }
}

pub open spec fn resolved_views(v: Seq<ResolvedEntry>) -> Seq<ResolvedView> {
    v.map_values(|e: ResolvedEntry| e@)
}

pub open spec fn resolved_result_view(r: Result<Vec<ResolvedEntry>, Error>) -> Result<
    Seq<ResolvedView>,
    ErrorView,
> {
    match r {
        Ok(v) => Ok(resolved_views(v@)),
        Err(e) => Err(e@),
    }
}

pub open spec fn dot() -> Seq<char> {
    seq!['.']
}

/// The directory of an entry: `.` is the root itself; an absolute path or a
/// path starting with `~` is expanded on its own; anything else goes under
/// the root. Without a root, only the self-contained forms resolve.
pub open spec fn resolve_entry_dir_spec(
    root: Option<Seq<char>>,
    dir: Seq<char>,
    home: Option<Seq<char>>,
) -> Result<Seq<char>, ErrorView> {
    if dir == dot() {
        match root {
            Some(r) => Ok(r),
            None => Err(ErrorView::EntryNeedsRoot(dir)),
        }
    } else if is_absolute_path(dir) || dir == tilde() || tilde_slash().is_prefix_of(dir) {
        expand_path_spec(dir, None, home)
    } else {
        match root {
            Some(r) => Ok(path_join(r, dir)),
            None => Err(ErrorView::EntryNeedsRoot(dir)),
        }
    }
}

/// Whether resolving `dir` consults the home directory.
pub open spec fn dir_uses_home(dir: Seq<char>) -> bool {
    dir == tilde() || tilde_slash().is_prefix_of(dir)
}

/// The directory of an entry, resolved against `root` with the given home
/// directory.
pub fn resolve_entry_dir_in(root: Option<&str>, entry_dir: &str, home: Option<&str>) -> (r: Result<
    String,
    Error,
>)
    ensures
        path_result_view(r) == resolve_entry_dir_spec(opt_view(root), entry_dir@, opt_view(home)),
{
    let v = chars_of(entry_dir);
    if v.len() == 1 && v[0] == '.' {
        assert(v@ =~= dot());
        return match root {
            Some(r) => Ok(owned(r)),
            None => Err(Error::EntryNeedsRoot(owned(entry_dir))),
        };
    }
    assert(v@.len() == 1 && v@[0] == '.' ==> v@ =~= dot());
    let tildeish = if v.len() == 1 && v[0] == '~' {
        assert(v@ =~= tilde());
        true
    } else if v.len() >= 2 && v[0] == '~' && v[1] == '/' {
        assert(tilde_slash() =~= v@.subrange(0, 2));
        true
    } else {
        assert(v@ != tilde());
        assert(!tilde_slash().is_prefix_of(v@)) by {
            if tilde_slash().is_prefix_of(v@) {
                assert(v@.subrange(0, 2)[0] == '~');
                assert(v@.subrange(0, 2)[1] == '/');
            }
        }
        false
    };
    if is_absolute(entry_dir) || tildeish {
        return expand_path_in(entry_dir, None, home);
    }
    match root {
        Some(r) => Ok(join(r, entry_dir)),
        None => Err(Error::EntryNeedsRoot(owned(entry_dir))),
    }
}

/// The directory of an entry: `.` is the root itself, an absolute or `~`
/// path is expanded on its own, a relative path goes under the root.
pub fn resolve_entry_dir(root: Option<&str>, entry_dir: &str) -> (r: Result<String, Error>)
    ensures
        exists|home: Option<Seq<char>>|
            path_result_view(r) == #[trigger] resolve_entry_dir_spec(
                opt_view(root),
                entry_dir@,
                home,
            ),
        !dir_uses_home(entry_dir@) ==> path_result_view(r) == resolve_entry_dir_spec(
            opt_view(root),
            entry_dir@,
            None,
        ),
{
    let home = home_dir_from_env();
    let r = match &home {
        Some(h) => resolve_entry_dir_in(root, entry_dir, Some(h.as_str())),
        None => resolve_entry_dir_in(root, entry_dir, None),
    };
    assert(path_result_view(r) == resolve_entry_dir_spec(
        opt_view(root),
        entry_dir@,
        opt_string_view(home),
    ));
    r
}

/// The root of a config for a run: the run's root override, else the
/// config's root, expanded; an error when there is neither.
pub open spec fn config_root_spec(
    config: Config,
    config_name: Seq<char>,
    overrides: ResolveOverrides,
    home: Option<Seq<char>>,
) -> Result<Seq<char>, ErrorView> {
    match overrides.root {
        Some(r) => expand_path_spec(r@, None, home),
        None => match config.root {
            Some(r) => expand_path_spec(r@, None, home),
            None => Err(ErrorView::ConfigHasNoRoot(config_name)),
        },
    }
}

/// The session prefix template of a worktree: the run's, else the config's,
/// else the default.
pub open spec fn worktree_prefix_template(config: Config, overrides: ResolveOverrides) -> Seq<char> {
    match overrides.worktree_prefix {
        Some(p) => p@,
        None => match config.worktree_prefix {
            Some(p) => p@,
            None => DEFAULT_WORKTREE_PREFIX@,
        },
    }
}

pub open spec fn name_placeholder() -> Seq<char> {
    "{name}"@
}

/// The checkout given directly for a worktree: the run's, else the
/// worktree section's.
pub open spec fn worktree_direct_root(
    section: Option<WorktreeOverrides>,
    overrides: ResolveOverrides,
) -> Option<Seq<char>> {
    match overrides.worktree_root {
        Some(r) => Some(r@),
        None => match section {
            Some(s) => opt_string_view(s.root),
            None => None,
        },
    }
}

/// The parent directory of worktrees: the run's, else the section's, else
/// the config's.
pub open spec fn worktree_parent_dir(
    config: Config,
    section: Option<WorktreeOverrides>,
    overrides: ResolveOverrides,
) -> Option<Seq<char>> {
    match overrides.worktree_parent {
        Some(p) => Some(p@),
        None => match section {
            Some(s) => match s.worktree_parent {
                Some(p) => Some(p@),
                None => opt_string_view(config.worktree_parent),
            },
            None => opt_string_view(config.worktree_parent),
        },
    }
}

/// The default window count in a worktree: the run's, else the section's,
/// else the config's.
pub open spec fn worktree_windows(
    config: Config,
    section: Option<WorktreeOverrides>,
    overrides: ResolveOverrides,
) -> u32 {
    match overrides.windows {
        Some(w) => w,
        None => match section {
            Some(s) => match s.windows {
                Some(w) => w,
                None => config.windows,
            },
            None => config.windows,
        },
    }
}

/// Where a worktree's entries resolve: the session prefix (the template with
/// `{name}` replaced), the base directory (a direct checkout root, else the
/// worktree parent joined with the worktree's name; a relative parent lies
/// under the config root), and the default window count.
pub open spec fn worktree_base_spec(
    config: Config,
    config_root: Seq<char>,
    worktree_name: Seq<char>,
    section: Option<WorktreeOverrides>,
    overrides: ResolveOverrides,
    home: Option<Seq<char>>,
) -> Result<(Seq<char>, Seq<char>, u32), ErrorView> {
    let prefix = replace_all(
        worktree_prefix_template(config, overrides),
        name_placeholder(),
        worktree_name,
    );
    let windows = worktree_windows(config, section, overrides);
    match worktree_direct_root(section, overrides) {
        Some(d) => match expand_path_spec(d, None, home) {
            Ok(b) => Ok((prefix, b, windows)),
            Err(e) => Err(e),
        },
        None => match worktree_parent_dir(config, section, overrides) {
            None => Err(ErrorView::WorktreeNeedsParent(worktree_name)),
            Some(p) => {
                let parent = if is_absolute_path(p) {
                    expand_path_spec(p, None, home)
                } else {
                    expand_path_spec(p, Some(config_root), home)
                };
                match parent {
                    Ok(pp) => Ok((prefix, path_join(pp, worktree_name), windows)),
                    Err(e) => Err(e),
                }
            },
        },
    }
}

/// The session prefix, base directory and default window count of a run:
/// plain runs use the config name and root; worktree runs put the worktree
/// prefix under the config name.
pub open spec fn session_base_spec(
    config: Config,
    config_name: Seq<char>,
    worktree: Option<Seq<char>>,
    overrides: ResolveOverrides,
    home: Option<Seq<char>>,
) -> Result<(Seq<char>, Seq<char>, u32), ErrorView> {
    match config_root_spec(config, config_name, overrides, home) {
        Err(e) => Err(e),
        Ok(root) => match worktree {
            Some(w) => match worktree_base_spec(
                config,
                root,
                w,
                lookup(worktree_items(config.worktrees), w),
                overrides,
                home,
            ) {
                Ok(t) => Ok((config_name + "/"@ + t.0, t.1, t.2)),
                Err(e) => Err(e),
            },
            None => Ok(
                (
                    config_name,
                    root,
                    match overrides.windows {
                        Some(w) => w,
                        None => config.windows,
                    },
                ),
            ),
        },
    }
}

/// One entry resolved: session `prefix/key`, directory under `base`, the
/// entry's windows, else the run's count, else the default count.
pub open spec fn resolve_one_spec(
    prefix: Seq<char>,
    base: Seq<char>,
    default_windows: u32,
    override_windows: Option<u32>,
    key: Seq<char>,
    entry: Entry,
    home: Option<Seq<char>>,
) -> Result<ResolvedView, ErrorView> {
    match resolve_entry_dir_spec(Some(base), entry_dir(entry), home) {
        Err(e) => Err(e),
        Ok(dir) => Ok(
            ResolvedView {
                key,
                session_name: prefix + "/"@ + key,
                directory: dir,
                windows: match entry_windows(entry) {
                    Some(w) => w,
                    None => WindowsView::Count(
                        match override_windows {
                            Some(n) => n,
                            None => default_windows,
                        },
                    ),
                },
                cmd: entry_cmd(entry),
            },
        ),
    }
}

/// All entries resolved in order; the first failure is the result.
pub open spec fn resolve_all_spec(
    prefix: Seq<char>,
    base: Seq<char>,
    default_windows: u32,
    override_windows: Option<u32>,
    items: Seq<(Seq<char>, Entry)>,
    home: Option<Seq<char>>,
) -> Result<Seq<ResolvedView>, ErrorView>
    decreases items.len(),
{
    if items.len() == 0 {
        Ok(Seq::empty())
    } else {
        match resolve_all_spec(
            prefix,
            base,
            default_windows,
            override_windows,
            items.drop_last(),
            home,
        ) {
            Err(e) => Err(e),
            Ok(rs) => match resolve_one_spec(
                prefix,
                base,
                default_windows,
                override_windows,
                items.last().0,
                items.last().1,
                home,
            ) {
                Err(e) => Err(e),
                Ok(r) => Ok(rs.push(r)),
            },
        }
    }
}

/// The resolution of every entry of `config` for a run.
pub open spec fn resolve_entries_spec(
    config: Config,
    config_name: Seq<char>,
    worktree: Option<Seq<char>>,
    overrides: ResolveOverrides,
    home: Option<Seq<char>>,
) -> Result<Seq<ResolvedView>, ErrorView> {
    match session_base_spec(config, config_name, worktree, overrides, home) {
        Err(e) => Err(e),
        Ok(t) => resolve_all_spec(
            t.0,
            t.1,
            t.2,
            overrides.windows,
            entry_items(config.entries),
            home,
        ),
    }
}

proof fn lemma_resolve_all_keeps_error(
    prefix: Seq<char>,
    base: Seq<char>,
    default_windows: u32,
    override_windows: Option<u32>,
    items: Seq<(Seq<char>, Entry)>,
    k: int,
    home: Option<Seq<char>>,
)
    requires
        0 <= k <= items.len(),
        resolve_all_spec(prefix, base, default_windows, override_windows, items.take(k), home) is Err,
    ensures
        resolve_all_spec(prefix, base, default_windows, override_windows, items, home)
            == resolve_all_spec(prefix, base, default_windows, override_windows, items.take(k), home),
    decreases items.len(),
{
    if k == items.len() {
        assert(items.take(k) =~= items);
    } else {
        assert(items.drop_last().take(k) =~= items.take(k));
        lemma_resolve_all_keeps_error(
            prefix,
            base,
            default_windows,
            override_windows,
            items.drop_last(),
            k,
            home,
        );
    }
}

fn opt_str(o: &Option<String>) -> (r: Option<&str>)
    ensures
        opt_view(r) == opt_string_view(*o),
{
    match o {
        Some(s) => Some(s.as_str()),
        None => None,
    }
}

/// Where a worktree's entries resolve; see [`worktree_base_spec`].
fn resolve_worktree_base(
    config: &Config,
    config_root: &str,
    worktree_name: &str,
    section: Option<&WorktreeOverrides>,
    overrides: &ResolveOverrides,
    home: Option<&str>,
) -> (r: Result<(String, String, u32), Error>)
    ensures
        match (r, worktree_base_spec(
            *config,
            config_root@,
            worktree_name@,
            match section {
                Some(s) => Some(*s),
                None => None,
            },
            *overrides,
            opt_view(home),
        )) {
            (Ok(t), Ok(u)) => t.0@ == u.0 && t.1@ == u.1 && t.2 == u.2,
            (Err(e), Err(f)) => e@ == f,
            _ => false,
        },
{
    let ghost sec = match section {
        Some(s) => Some(*s),
        None => None::<WorktreeOverrides>,
    };
    let template: &str = match &overrides.worktree_prefix {
        Some(p) => p.as_str(),
        None => match &config.worktree_prefix {
            Some(p) => p.as_str(),
            None => DEFAULT_WORKTREE_PREFIX,
        },
    };
    assert(template@ == worktree_prefix_template(*config, *overrides));
    let template_chars = chars_of(template);
    let pat = chars_of("{name}");
    proof {
        reveal_strlit("{name}");
    }
    let name_chars = chars_of(worktree_name);
    let prefix_chars = chars_replace_all(
        template_chars.as_slice(),
        pat.as_slice(),
        name_chars.as_slice(),
    );
    let prefix = string_from_chars(prefix_chars.as_slice());
    let windows: u32 = match overrides.windows {
        Some(w) => w,
        None => match section {
            Some(s) => match s.windows {
                Some(w) => w,
                None => config.windows,
            },
            None => config.windows,
        },
    };
    assert(windows == worktree_windows(*config, sec, *overrides));
    let direct: Option<&str> = match &overrides.worktree_root {
        Some(r) => Some(r.as_str()),
        None => match section {
            Some(s) => opt_str(&s.root),
            None => None,
        },
    };
    assert(opt_view(direct) == worktree_direct_root(sec, *overrides));
    match direct {
        Some(d) => {
            match expand_path_in(d, None, home) {
                Ok(b) => Ok((prefix, b, windows)),
                Err(e) => Err(e),
            }
        },
        None => {
            let parent: Option<&str> = match &overrides.worktree_parent {
                Some(p) => Some(p.as_str()),
                None => match section {
                    Some(s) => match &s.worktree_parent {
                        Some(p) => Some(p.as_str()),
                        None => opt_str(&config.worktree_parent),
                    },
                    None => opt_str(&config.worktree_parent),
                },
            };
            assert(opt_view(parent) == worktree_parent_dir(*config, sec, *overrides));
            match parent {
                None => Err(Error::WorktreeNeedsParent(owned(worktree_name))),
                Some(p) => {
                    let pp = if is_absolute(p) {
                        expand_path_in(p, None, home)
                    } else {
                        expand_path_in(p, Some(config_root), home)
                    };
                    match pp {
                        Ok(pp) => Ok((prefix, join(pp.as_str(), worktree_name), windows)),
                        Err(e) => Err(e),
                    }
                },
            }
        },
    }
}

impl Config {
    /// Every entry of this config resolved into a session for the run that
    /// `ctx` describes, with the given home directory.
    pub fn resolve_entries_in(&self, ctx: &ResolveContext, home: Option<&str>) -> (r: Result<
        Vec<ResolvedEntry>,
        Error,
    >)
        ensures
            resolved_result_view(r) == resolve_entries_spec(
                *self,
                ctx.config_name@,
                opt_view(ctx.worktree),
                ctx.overrides,
                opt_view(home),
            ),
    {
        let ghost home_v = opt_view(home);
        let root_src: Option<&str> = match &ctx.overrides.root {
            Some(r) => Some(r.as_str()),
            None => opt_str(&self.root),
        };
        let config_root = match root_src {
            Some(r) => match expand_path_in(r, None, home) {
                Ok(x) => x,
                Err(e) => return Err(e),
            },
            None => return Err(Error::ConfigHasNoRoot(owned(ctx.config_name))),
        };
        assert(config_root_spec(*self, ctx.config_name@, ctx.overrides, home_v) == Ok::<
            Seq<char>,
            ErrorView,
        >(config_root@));
        let (session_prefix, effective_base, default_windows) = match ctx.worktree {
            Some(worktree_name) => {
                let section = worktree_map_get(&self.worktrees, worktree_name);
                match resolve_worktree_base(
                    self,
                    config_root.as_str(),
                    worktree_name,
                    section,
                    &ctx.overrides,
                    home,
                ) {
                    Ok((prefix, base, windows)) => (
                        concat3(ctx.config_name, "/", prefix.as_str()),
                        base,
                        windows,
                    ),
                    Err(e) => return Err(e),
                }
            },
            None => {
                let w = match ctx.overrides.windows {
                    Some(w) => w,
                    None => self.windows,
                };
                (owned(ctx.config_name), config_root, w)
            },
        };
        let ghost sb = session_base_spec(
            *self,
            ctx.config_name@,
            opt_view(ctx.worktree),
            ctx.overrides,
            home_v,
        );
        assert(sb == Ok::<(Seq<char>, Seq<char>, u32), ErrorView>(
            (session_prefix@, effective_base@, default_windows),
        ));
        let ghost items = entry_items(self.entries);
        let n = entry_map_len(&self.entries);
        let mut resolved: Vec<ResolvedEntry> = Vec::new();
        let mut i: usize = 0;
        assert(items.take(0) =~= Seq::<(Seq<char>, Entry)>::empty());
        assert(resolved_views(resolved@) =~= Seq::<ResolvedView>::empty());
        while i < n
            invariant
                n == items.len(),
                items == entry_items(self.entries),
                home_v == opt_view(home),
                resolve_entries_spec(
                    *self,
                    ctx.config_name@,
                    opt_view(ctx.worktree),
                    ctx.overrides,
                    home_v,
                ) == resolve_all_spec(
                    session_prefix@,
                    effective_base@,
                    default_windows,
                    ctx.overrides.windows,
                    items,
                    home_v,
                ),
                i <= n,
                resolve_all_spec(
                    session_prefix@,
                    effective_base@,
                    default_windows,
                    ctx.overrides.windows,
                    items.take(i as int),
                    home_v,
                ) == Ok::<Seq<ResolvedView>, ErrorView>(resolved_views(resolved@)),
            decreases n - i,
        {
            let (key, entry) = match entry_map_get_index(&self.entries, i) {
                Some(p) => p,
                None => {
                    assert(false);
                    return Err(Error::HomeNotFound);
                },
            };
            assert(items.take(i + 1).drop_last() =~= items.take(i as int));
            assert(items.take(i + 1).last() == items[i as int]);
            let dr = resolve_entry_dir_in(Some(effective_base.as_str()), entry.dir().as_str(), home);
            assert(path_result_view(dr) == resolve_entry_dir_spec(
                Some(effective_base@),
                entry_dir(items[i as int].1),
                home_v,
            ));
            let directory = match dr {
                Ok(d) => d,
                Err(e) => {
                    proof {
                        assert(resolve_one_spec(
                            session_prefix@,
                            effective_base@,
                            default_windows,
                            ctx.overrides.windows,
                            items[i as int].0,
                            items[i as int].1,
                            home_v,
                        ) == Err::<ResolvedView, ErrorView>(e@));
                        assert(resolve_all_spec(
                            session_prefix@,
                            effective_base@,
                            default_windows,
                            ctx.overrides.windows,
                            items.take(i + 1),
                            home_v,
                        ) == Err::<Seq<ResolvedView>, ErrorView>(e@));
                        lemma_resolve_all_keeps_error(
                            session_prefix@,
                            effective_base@,
                            default_windows,
                            ctx.overrides.windows,
                            items,
                            i + 1,
                            home_v,
                        );
                    }
                    return Err(e);
                },
            };
            let windows = match entry.windows() {
                Some(w) => w,
                None => WindowsSpec::Count(
                    match ctx.overrides.windows {
                        Some(n) => n,
                        None => default_windows,
                    },
                ),
            };
            let cmd = match entry.cmd() {
                Some(c) => Some(owned(c)),
                None => None,
            };
            let session_name = concat3(session_prefix.as_str(), "/", key.as_str());
            let ghost before = resolved@;
            let item = ResolvedEntry { key: owned(key.as_str()), session_name, directory, windows, cmd };
            assert(resolve_one_spec(
                session_prefix@,
                effective_base@,
                default_windows,
                ctx.overrides.windows,
                items[i as int].0,
                items[i as int].1,
                home_v,
            ) == Ok::<ResolvedView, ErrorView>(item@));
            resolved.push(item);
            assert(resolved_views(resolved@) =~= resolved_views(before).push(item@));
            i = i + 1;
        }
        assert(items.take(n as int) =~= items);
        Ok(resolved)
    }

    /// Every entry of this config resolved into a session for the run that
    /// `ctx` describes. The home directory comes from the environment.
    pub fn resolve_entries_with(&self, ctx: &ResolveContext) -> (r: Result<
        Vec<ResolvedEntry>,
        Error,
    >)
        ensures
            exists|home: Option<Seq<char>>|
                resolved_result_view(r) == #[trigger] resolve_entries_spec(
                    *self,
                    ctx.config_name@,
                    opt_view(ctx.worktree),
                    ctx.overrides,
                    home,
                ),
    {
        let home = home_dir_from_env();
        let r = match &home {
            Some(h) => self.resolve_entries_in(ctx, Some(h.as_str())),
            None => self.resolve_entries_in(ctx, None),
        };
        assert(resolved_result_view(r) == resolve_entries_spec(
            *self,
            ctx.config_name@,
            opt_view(ctx.worktree),
            ctx.overrides,
            opt_string_view(home),
        ));
        r
    }

    /// Every entry of this config resolved into a session, with no worktree
    /// and no overrides.
    pub fn resolve_entries(&self, config_name: &str) -> (r: Result<Vec<ResolvedEntry>, Error>)
        ensures
            exists|home: Option<Seq<char>>|
                resolved_result_view(r) == #[trigger] resolve_entries_spec(
                    *self,
                    config_name@,
                    None,
                    ResolveOverrides {
                        root: None,
                        worktree_parent: None,
                        worktree_root: None,
                        worktree_prefix: None,
                        windows: None,
                    },
                    home,
                ),
    {
        let ctx = ResolveContext {
            config_name,
            worktree: None,
            overrides: ResolveOverrides::default(),
        };
        self.resolve_entries_with(&ctx)
    }
}

/// `absolute` written relative to `root`: what remains after the root's
/// components (`.` when nothing remains), or `absolute` unchanged when it does
/// not lie under `root`.
pub open spec fn relativize_spec(root: Seq<char>, absolute: Seq<char>) -> Seq<char> {
    match path_strip_prefix(absolute, root) {
        Some(rest) => if rest.len() == 0 {
            dot()
        } else {
            rest
        },
        None => absolute,
    }
}

/// Resolved under `root`, the result names `absolute` again, component for
/// component, when `absolute` lies under `root` or is absolute, unless the
/// result starts at the home directory (`~`, `~/…`), or the root is empty and
/// what remains after it is `.` itself (as for the path `.`).
pub fn relativize_dir(root: &str, absolute: &str) -> (r: String)
    ensures
        r@ == relativize_spec(root@, absolute@),
        (path_strip_prefix(absolute@, root@) is Some || is_absolute_path(absolute@)) && !(root@.len()
            == 0 && path_strip_prefix(absolute@, root@) == Some(dot())) && !dir_uses_home(r@)
            ==> forall|home: Option<Seq<char>>|
            #[trigger] resolve_entry_dir_spec(Some(root@), r@, home) matches Ok(d)
                && path_components(d) == path_components(absolute@),
{
    match strip_prefix(absolute, root) {
        Some(rest) => {
            let v = chars_of(rest.as_str());
            if v.len() == 0 {
                let mut d: Vec<char> = Vec::new();
                d.push('.');
                assert(d@ =~= dot());
                assert(rest@.len() == 0);
                string_from_chars(d.as_slice())
            } else {
                proof {
                    if rest@ == dot() && root@.len() > 0 {
                        lemma_components_join(root@, dot());
                        lemma_body_empty_and_dot();
                        assert(path_components(root@) + body_components(dot()) =~= path_components(
                            root@,
                        ));
                    }
                }
                rest
            }
        },
        None => owned(absolute),
    }
}

/// Component `j` is present, and the same, in every component list.
pub open spec fn all_agree_at(comps: Seq<Seq<Seq<char>>>, j: int) -> bool {
    forall|p: int| 0 <= p < comps.len() ==> j < #[trigger] comps[p].len() && comps[p][j] == comps[0][j]
}

/// The number of leading components, from position `j` on, shared by all
/// component lists.
pub open spec fn common_prefix_len(comps: Seq<Seq<Seq<char>>>, j: int) -> int
    decreases comps[0].len() - j,
{
    if j < 0 || j >= comps[0].len() || !all_agree_at(comps, j) {
        j
    } else {
        common_prefix_len(comps, j + 1)
    }
}

/// The path made by pushing each component in turn onto an empty path.
pub open spec fn path_from_components(cs: Seq<Seq<char>>) -> Seq<char>
    decreases cs.len(),
{
    if cs.len() == 0 {
        Seq::empty()
    } else {
        path_join(path_from_components(cs.drop_last()), cs.last())
    }
}

pub open spec fn components_of_all(paths: Seq<String>) -> Seq<Seq<Seq<char>>> {
    paths.map_values(|p: String| path_components(p@))
}

/// The longest leading run of components shared by all paths, as a path;
/// `None` when there are no paths or they share no component.
pub open spec fn common_path_prefix_spec(paths: Seq<String>) -> Option<Seq<char>> {
    if paths.len() == 0 {
        None
    } else {
        let comps = components_of_all(paths);
        let k = common_prefix_len(comps, 0);
        if k == 0 {
            None
        } else {
            Some(path_from_components(comps[0].take(k)))
        }
    }
}

proof fn lemma_common_prefix_len_bounds(comps: Seq<Seq<Seq<char>>>, j: int)
    requires
        0 <= j <= comps[0].len(),
    ensures
        j <= common_prefix_len(comps, j) <= comps[0].len(),
    decreases comps[0].len() - j,
{
    if j < comps[0].len() && all_agree_at(comps, j) {
        lemma_common_prefix_len_bounds(comps, j + 1);
    }
}

/// The path built from a well-formed component list has exactly those
/// components.
pub proof fn lemma_components_of_built_path(cs: Seq<Seq<char>>)
    requires
        well_formed_components(cs),
    ensures
        path_components(path_from_components(cs)) == cs,
        cs.len() > 0 ==> path_from_components(cs).len() > 0,
    decreases cs.len(),
{
    lemma_body_empty_and_dot();
    if cs.len() == 0 {
        assert(path_components(Seq::<char>::empty()) =~= Seq::<Seq<char>>::empty());
    } else if cs.len() == 1 {
        let c = cs[0];
        assert(cs.drop_last() =~= Seq::<Seq<char>>::empty());
        assert(path_from_components(cs.drop_last()) == Seq::<char>::empty());
        assert(path_from_components(cs) == c) by {
            if !is_absolute_path(c) {
                assert(Seq::<char>::empty() + c =~= c);
            }
        }
        if c == seq!['/'] {
            assert(c.skip(1) =~= Seq::<char>::empty());
            assert(path_components(c) =~= cs);
        } else if c == seq!['.'] {
            assert(c.skip(1) =~= Seq::<char>::empty());
            assert(path_components(c) =~= cs);
        } else {
            assert(c.len() > 0);
            assert(c[0] != '/');
            if c[0] == '.' {
                assert(c.len() > 1) by {
                    if c.len() == 1 {
                        assert(c =~= seq!['.']);
                    }
                }
                assert(c[1] != '/');
            }
            lemma_body_single(c);
            assert(path_components(c) =~= cs);
        }
    } else {
        let init = cs.drop_last();
        let c = cs.last();
        assert(well_formed_components(init)) by {
            assert forall|i: int| 0 <= i < init.len() implies (i == 0 && (init[i] == seq!['/']
                || init[i] == seq!['.'])) || (!has_char(#[trigger] init[i], '/')
                && is_body_component(init[i])) by {
                assert(init[i] == cs[i]);
            }
        }
        lemma_components_of_built_path(init);
        let b = path_from_components(init);
        assert(!has_char(c, '/') && is_body_component(c)) by {
            assert(!(cs.len() - 1 == 0));
        }
        assert(!is_absolute_path(c));
        lemma_components_join(b, c);
        lemma_body_single(c);
        assert(init + seq![c] =~= cs);
        if path_join(b, c).len() == 0 {
            assert(path_join(b, c).len() >= b.len());
        }
    }
}

/// Where the common run of components from `j` on ends: every list agrees
/// at each position before it, and at it the lists do not all agree or the
/// first list ends.
proof fn lemma_common_prefix_len_ends(comps: Seq<Seq<Seq<char>>>, j: int)
    requires
        0 <= j <= comps[0].len(),
    ensures
        j <= common_prefix_len(comps, j) <= comps[0].len(),
        forall|i: int| j <= i < common_prefix_len(comps, j) ==> #[trigger] all_agree_at(comps, i),
        common_prefix_len(comps, j) < comps[0].len() ==> !all_agree_at(
            comps,
            common_prefix_len(comps, j),
        ),
    decreases comps[0].len() - j,
{
    if j < comps[0].len() && all_agree_at(comps, j) {
        lemma_common_prefix_len_ends(comps, j + 1);
    }
}

/// The common run reaches at least every position up to which all lists
/// agree.
proof fn lemma_common_prefix_len_at_least(comps: Seq<Seq<Seq<char>>>, j: int, m: int)
    requires
        0 <= j <= m <= comps[0].len(),
        forall|i: int| j <= i < m ==> #[trigger] all_agree_at(comps, i),
    ensures
        common_prefix_len(comps, j) >= m,
    decreases m - j,
{
    if j < m {
        assert(all_agree_at(comps, j));
        lemma_common_prefix_len_at_least(comps, j + 1, m);
    } else {
        lemma_common_prefix_len_bounds(comps, j);
    }
}

/// The common prefix of some paths is shared, component for component, by
/// every one of them, and no longer run of components is; it is `None`
/// exactly when there are no paths or they do not all share a first
/// component.
pub proof fn law_common_prefix_is_longest_shared(paths: Seq<String>)
    ensures
        common_path_prefix_spec(paths) is None <==> paths.len() == 0 || !all_agree_at(
            components_of_all(paths),
            0,
        ),
        common_path_prefix_spec(paths) matches Some(q) ==> {
            &&& forall|i: int|
                0 <= i < paths.len() ==> path_components(q).is_prefix_of(
                    #[trigger] path_components(paths[i]@),
                )
            &&& forall|cs: Seq<Seq<char>>|
                #![trigger cs.len()]
                cs.len() > path_components(q).len() ==> exists|i: int|
                    0 <= i < paths.len() && !cs.is_prefix_of(#[trigger] path_components(paths[i]@))
        },
{
    if paths.len() > 0 {
        let comps = components_of_all(paths);
        assert(comps[0] == path_components(paths[0]@));
        lemma_common_prefix_len_ends(comps, 0);
        let k = common_prefix_len(comps, 0);
        if k == 0 {
            assert(!all_agree_at(comps, 0)) by {
                if comps[0].len() > 0 {
                } else {
                    assert(!(0 < comps[0].len()));
                }
            }
        } else {
            assert(all_agree_at(comps, 0));
            let cs0 = comps[0].take(k);
            lemma_components_well_formed(paths[0]@);
            assert(well_formed_components(cs0)) by {
                assert forall|i: int| 0 <= i < cs0.len() implies (i == 0 && (cs0[i] == seq!['/']
                    || cs0[i] == seq!['.'])) || (!has_char(#[trigger] cs0[i], '/')
                    && is_body_component(cs0[i])) by {
                    assert(cs0[i] == comps[0][i]);
                }
            }
            lemma_components_of_built_path(cs0);
            let q = path_from_components(cs0);
            assert(path_components(q) == cs0);
            assert forall|i: int| 0 <= i < paths.len() implies path_components(q).is_prefix_of(
                #[trigger] path_components(paths[i]@),
            ) by {
                assert(comps[i] == path_components(paths[i]@));
                assert forall|j: int| 0 <= j < k implies cs0[j] == comps[i][j] by {
                    assert(all_agree_at(comps, j));
                }
                assert(all_agree_at(comps, k - 1));
                assert(cs0 =~= comps[i].take(k));
            }
            assert forall|cs: Seq<Seq<char>>|
                #![trigger cs.len()]
                cs.len() > path_components(q).len() implies exists|
                i: int,
            | 0 <= i < paths.len() && !cs.is_prefix_of(#[trigger] path_components(paths[i]@)) by {
                if forall|i: int|
                    0 <= i < paths.len() ==> cs.is_prefix_of(#[trigger] path_components(paths[i]@)) {
                    assert(cs.is_prefix_of(path_components(paths[0]@)));
                    assert(k < cs.len());
                    assert(k < comps[0].len());
                    assert(all_agree_at(comps, k)) by {
                        assert forall|p: int| 0 <= p < comps.len() implies k < #[trigger] comps[
                            p
                        ].len() && comps[p][k] == comps[0][k] by {
                            assert(comps[p] == path_components(paths[p]@));
                            assert(cs.is_prefix_of(path_components(paths[p]@)));
                            assert(cs[k] == comps[p].subrange(0, cs.len() as int)[k]);
                            assert(cs[k] == comps[0].subrange(0, cs.len() as int)[k]);
                        }
                    }
                }
            }
        }
    }
}

/// Two lists name the same paths when every path of one is a path of the
/// other.
pub open spec fn same_paths(a: Seq<String>, b: Seq<String>) -> bool {
    forall|x: Seq<char>| #[trigger] views(a).contains(x) <==> #[trigger] views(b).contains(x)
}

/// A path of `b` is a path of `a`: its position there.
proof fn lemma_same_paths_index(a: Seq<String>, b: Seq<String>, p: int) -> (i: int)
    requires
        same_paths(a, b),
        0 <= p < b.len(),
    ensures
        0 <= i < a.len(),
        a[i]@ == b[p]@,
{
    assert(views(b)[p] == b[p]@);
    assert(views(b).contains(b[p]@));
    assert(views(a).contains(b[p]@));
    let i = choose|i: int| 0 <= i < views(a).len() && views(a)[i] == b[p]@;
    assert(views(a)[i] == a[i]@);
    i
}

proof fn lemma_agree_carries(a: Seq<String>, b: Seq<String>, m: int)
    requires
        same_paths(a, b),
        b.len() > 0,
        0 <= m,
        forall|i: int| 0 <= i < m ==> #[trigger] all_agree_at(components_of_all(a), i),
    ensures
        forall|i: int| 0 <= i < m ==> #[trigger] all_agree_at(components_of_all(b), i),
        m <= components_of_all(a)[0].len() ==> m <= components_of_all(b)[0].len(),
{
    let ca = components_of_all(a);
    let cb = components_of_all(b);
    let i0 = lemma_same_paths_index(a, b, 0);
    assert(cb[0] == ca[i0]);
    assert forall|i: int| 0 <= i < m implies #[trigger] all_agree_at(cb, i) by {
        assert(all_agree_at(ca, i));
        assert forall|p: int| 0 <= p < cb.len() implies i < #[trigger] cb[p].len() && cb[p][i]
            == cb[0][i] by {
            let ip = lemma_same_paths_index(a, b, p);
            assert(cb[p] == ca[ip]);
            assert(i < ca[ip].len() && ca[ip][i] == ca[0][i]);
            assert(i < ca[i0].len() && ca[i0][i] == ca[0][i]);
        }
    }
    if m > 0 {
        assert(all_agree_at(ca, m - 1));
        assert(m - 1 < ca[i0].len());
    }
}

/// The common prefix does not depend on the order of the paths, nor on a
/// path given more than once: lists that name the same paths have the same
/// common prefix.
pub proof fn law_common_prefix_ignores_order(a: Seq<String>, b: Seq<String>)
    requires
        same_paths(a, b),
    ensures
        common_path_prefix_spec(a) == common_path_prefix_spec(b),
{
    if a.len() == 0 || b.len() == 0 {
        if b.len() > 0 {
            lemma_same_paths_index(a, b, 0);
        }
        if a.len() > 0 {
            assert(same_paths(b, a));
            lemma_same_paths_index(b, a, 0);
        }
    } else {
        let ca = components_of_all(a);
        let cb = components_of_all(b);
        assert(same_paths(b, a));
        lemma_common_prefix_len_ends(ca, 0);
        lemma_common_prefix_len_ends(cb, 0);
        let ka = common_prefix_len(ca, 0);
        let kb = common_prefix_len(cb, 0);
        lemma_agree_carries(a, b, ka);
        lemma_common_prefix_len_at_least(cb, 0, ka);
        lemma_agree_carries(b, a, kb);
        lemma_common_prefix_len_at_least(ca, 0, kb);
        assert(ka == kb);
        if ka > 0 {
            let i0 = lemma_same_paths_index(a, b, 0);
            assert(cb[0] == ca[i0]);
            assert forall|j: int| 0 <= j < ka implies cb[0][j] == ca[0][j] by {
                assert(all_agree_at(ca, j));
                assert(j < ca[i0].len() && ca[i0][j] == ca[0][j]);
            }
            assert(cb[0].take(ka) =~= ca[0].take(ka));
        }
    }
}

/// Whether component `j` of the first list is present, and equal, in every list.
fn agree_at(comps: &Vec<Vec<String>>, j: usize) -> (r: bool)
    requires
        comps.len() > 0,
        j < comps[0].len(),
    ensures
        r == all_agree_at(comps@.map_values(|c: Vec<String>| views(c@)), j as int),
{
    let ghost cv = comps@.map_values(|c: Vec<String>| views(c@));
    let first = chars_of(comps[0][j].as_str());
    let mut p: usize = 0;
    while p < comps.len()
        invariant
            comps.len() > 0,
            j < comps[0].len(),
            cv == comps@.map_values(|c: Vec<String>| views(c@)),
            first@ == cv[0][j as int],
            p <= comps.len(),
            forall|q: int| 0 <= q < p ==> j < #[trigger] cv[q].len() && cv[q][j as int] == cv[0][j as int],
        decreases comps.len() - p,
    {
        if j >= comps[p].len() {
            assert(cv[p as int].len() == comps[p as int]@.len());
            assert(!all_agree_at(cv, j as int)) by {
                assert(!(j < cv[p as int].len()));
            }
            return false;
        }
        let c = chars_of(comps[p][j].as_str());
        if !chars_eq(c.as_slice(), first.as_slice()) {
            assert(cv[p as int][j as int] == c@);
            assert(!all_agree_at(cv, j as int)) by {
                assert(cv[p as int][j as int] != cv[0][j as int]);
            }
            return false;
        }
        assert(cv[p as int][j as int] == c@);
        p = p + 1;
    }
    true
}

/// The longest leading run of components shared by all `paths`, as a path.
pub fn common_path_prefix(paths: &[String]) -> (r: Option<String>)
    ensures
        match r {
            Some(s) => common_path_prefix_spec(paths@) == Some(s@),
            None => common_path_prefix_spec(paths@) is None,
        },
{
    if paths.len() == 0 {
        return None;
    }
    let mut comps: Vec<Vec<String>> = Vec::new();
    let mut i: usize = 0;
    while i < paths.len()
        invariant
            i <= paths.len(),
            comps@.len() == i,
            forall|q: int| 0 <= q < i ==> views(#[trigger] comps@[q]@) == path_components(paths@[q]@),
        decreases paths.len() - i,
    {
        comps.push(components(paths[i].as_str()));
        i = i + 1;
    }
    let ghost cv = comps@.map_values(|c: Vec<String>| views(c@));
    assert(cv =~= components_of_all(paths@));
    let mut k: usize = 0;
    let mut acc: Vec<char> = Vec::new();
    assert(cv[0].take(0) =~= Seq::<Seq<char>>::empty());
    while k < comps[0].len()
        invariant
            comps.len() > 0,
            cv == comps@.map_values(|c: Vec<String>| views(c@)),
            k <= comps[0].len(),
            common_prefix_len(cv, 0) == common_prefix_len(cv, k as int),
            acc@ == path_from_components(cv[0].take(k as int)),
        ensures
            k == comps[0].len() || !all_agree_at(cv, k as int),
            common_prefix_len(cv, 0) == common_prefix_len(cv, k as int),
            acc@ == path_from_components(cv[0].take(k as int)),
            k <= comps[0].len(),
        decreases comps[0].len() - k,
    {
        if !agree_at(&comps, k) {
            break;
        }
        let cur = string_from_chars(acc.as_slice());
        let joined = join(cur.as_str(), comps[0][k].as_str());
        acc = chars_of(joined.as_str());
        assert(cv[0].take(k + 1).drop_last() =~= cv[0].take(k as int));
        k = k + 1;
    }
    proof {
        lemma_common_prefix_len_bounds(cv, k as int);
    }
    assert(common_prefix_len(cv, 0) == k);
    if k == 0 {
        return None;
    }
    Some(string_from_chars(acc.as_slice()))
}

/// The mathematical value of an [`Entry`].
pub enum EntryView {
    Simple(Seq<char>),
    Detailed { dir: Seq<char>, windows: Option<WindowsView>, cmd: Option<Seq<char>> },
}

impl View for Entry {
    type V = EntryView;

    open spec fn view(&self) -> EntryView {
        match self {
            Entry::Simple(d) => EntryView::Simple(d@),
            Entry::Detailed(o) => EntryView::Detailed {
                dir: o.dir@,
                windows: opt_windows_view(o.windows),
                cmd: opt_string_view(o.cmd),
            },
        }
    }
}

pub open spec fn entry_view_dir(e: EntryView) -> Seq<char> {
    match e {
        EntryView::Simple(d) => d,
        EntryView::Detailed { dir, .. } => dir,
    }
}

/// The mathematical value of a [`WorktreeOverrides`].
pub struct WorktreeView {
    pub root: Option<Seq<char>>,
    pub windows: Option<u32>,
    pub worktree_parent: Option<Seq<char>>,
}

impl View for WorktreeOverrides {
    type V = WorktreeView;

    open spec fn view(&self) -> WorktreeView {
        WorktreeView {
            root: opt_string_view(self.root),
            windows: self.windows,
            worktree_parent: opt_string_view(self.worktree_parent),
        }
    }
}

/// The mathematical value of a [`Config`]: its settings, and its entries and
/// worktree sections as key/value pairs in order.
pub struct ConfigView {
    pub root: Option<Seq<char>>,
    pub windows: u32,
    pub worktree_parent: Option<Seq<char>>,
    pub worktree_prefix: Option<Seq<char>>,
    pub entries: Seq<(Seq<char>, EntryView)>,
    pub worktrees: Seq<(Seq<char>, WorktreeView)>,
}

pub open spec fn entry_pairs_view(items: Seq<(Seq<char>, Entry)>) -> Seq<(Seq<char>, EntryView)> {
    items.map_values(|p: (Seq<char>, Entry)| (p.0, p.1@))
}

pub open spec fn worktree_pairs_view(items: Seq<(Seq<char>, WorktreeOverrides)>) -> Seq<
    (Seq<char>, WorktreeView),
> {
    items.map_values(|p: (Seq<char>, WorktreeOverrides)| (p.0, p.1@))
}

impl View for Config {
    type V = ConfigView;

    open spec fn view(&self) -> ConfigView {
        ConfigView {
            root: opt_string_view(self.root),
            windows: self.windows,
            worktree_parent: opt_string_view(self.worktree_parent),
            worktree_prefix: opt_string_view(self.worktree_prefix),
            entries: entry_pairs_view(entry_items(self.entries)),
            worktrees: worktree_pairs_view(worktree_items(self.worktrees)),
        }
    }
}

pub open spec fn config_pairs_view(items: Seq<(Seq<char>, Config)>) -> Seq<(Seq<char>, ConfigView)> {
    items.map_values(|p: (Seq<char>, Config)| (p.0, p.1@))
}

impl View for Store {
    type V = Seq<(Seq<char>, ConfigView)>;

    open spec fn view(&self) -> Seq<(Seq<char>, ConfigView)> {
        config_pairs_view(crate::ordered::config_items(self.configs))
    }
}

/// An entry directory that starts at the home directory (`~` or `~/rest`)
/// resolves to the home directory (joined with `rest`), whatever the root:
/// two roots give the same result, and without a home directory it is an
/// error.
pub proof fn law_home_entry_ignores_root(
    root1: Option<Seq<char>>,
    root2: Option<Seq<char>>,
    rest: Seq<char>,
    home: Option<Seq<char>>,
)
    ensures
        resolve_entry_dir_spec(root1, seq!['~'], home) == resolve_entry_dir_spec(
            root2,
            seq!['~'],
            home,
        ),
        resolve_entry_dir_spec(root1, seq!['~', '/'] + rest, home) == resolve_entry_dir_spec(
            root2,
            seq!['~', '/'] + rest,
            home,
        ),
        home matches Some(h) ==> resolve_entry_dir_spec(root1, seq!['~'], home) == Ok::<
            Seq<char>,
            ErrorView,
        >(h),
        home matches Some(h) ==> resolve_entry_dir_spec(root1, seq!['~', '/'] + rest, home) == Ok::<
            Seq<char>,
            ErrorView,
        >(path_join(h, rest)),
        home is None ==> resolve_entry_dir_spec(root1, seq!['~'], home) == Err::<
            Seq<char>,
            ErrorView,
        >(ErrorView::HomeNotFound),
        home is None ==> resolve_entry_dir_spec(root1, seq!['~', '/'] + rest, home) == Err::<
            Seq<char>,
            ErrorView,
        >(ErrorView::HomeNotFound),
{
    let t = seq!['~'];
    let d = seq!['~', '/'] + rest;
    assert(t != dot()) by {
        assert(t[0] != dot()[0]);
    }
    assert(t =~= tilde());
    assert(d != dot()) by {
        assert(d.len() != dot().len());
    }
    assert(d != tilde()) by {
        assert(d.len() != tilde().len());
    }
    assert(tilde_slash().is_prefix_of(d)) by {
        assert(d.subrange(0, 2) =~= tilde_slash());
    }
    assert(d.skip(2) =~= rest);
    assert(!is_absolute_path(d));
    assert(!is_absolute_path(t));
}

/// When the run gives no worktree root or parent and the worktree's section
/// gives a parent but no root, the worktree's base is that parent (under the
/// config root when relative) joined with the worktree's name, whatever
/// parent the config itself sets.
pub proof fn law_worktree_section_parent_wins(
    config: Config,
    other_parent: Option<String>,
    config_root: Seq<char>,
    worktree_name: Seq<char>,
    section: WorktreeOverrides,
    overrides: ResolveOverrides,
    home: Option<Seq<char>>,
)
    requires
        overrides.worktree_root is None,
        overrides.worktree_parent is None,
        section.root is None,
        section.worktree_parent is Some,
    ensures
        ({
            let p = section.worktree_parent->0@;
            let parent = if is_absolute_path(p) {
                expand_path_spec(p, None, home)
            } else {
                expand_path_spec(p, Some(config_root), home)
            };
            let r = worktree_base_spec(
                config,
                config_root,
                worktree_name,
                Some(section),
                overrides,
                home,
            );
            &&& parent matches Ok(pp) ==> r matches Ok(t) && t.1 == path_join(pp, worktree_name)
            &&& parent matches Err(e) ==> r == Err::<(Seq<char>, Seq<char>, u32), ErrorView>(e)
            &&& r == worktree_base_spec(
                Config { worktree_parent: other_parent, ..config },
                config_root,
                worktree_name,
                Some(section),
                overrides,
                home,
            )
        }),
{
}

/// A successful resolution has one session per entry, in the entries'
/// order: each keeps its entry's key, is named `prefix/key`, and gets the
/// entry's windows, else the run's window count, else the default count.
pub proof fn law_resolution_follows_entries(
    prefix: Seq<char>,
    base: Seq<char>,
    default_windows: u32,
    override_windows: Option<u32>,
    items: Seq<(Seq<char>, Entry)>,
    home: Option<Seq<char>>,
)
    requires
        resolve_all_spec(prefix, base, default_windows, override_windows, items, home) is Ok,
    ensures
        ({
            let rs = resolve_all_spec(prefix, base, default_windows, override_windows, items, home)->Ok_0;
            &&& rs.len() == items.len()
            &&& forall|i: int|
                0 <= i < items.len() ==> {
                    &&& (#[trigger] rs[i]).key == items[i].0
                    &&& rs[i].session_name == prefix + "/"@ + items[i].0
                    &&& rs[i].windows == match entry_windows(items[i].1) {
                        Some(w) => w,
                        None => WindowsView::Count(
                            match override_windows {
                                Some(n) => n,
                                None => default_windows,
                            },
                        ),
                    }
                    &&& rs[i].cmd == entry_cmd(items[i].1)
                }
        }),
    decreases items.len(),
{
    if items.len() > 0 {
        let init = items.drop_last();
        law_resolution_follows_entries(prefix, base, default_windows, override_windows, init, home);
        let rs0 = resolve_all_spec(prefix, base, default_windows, override_windows, init, home)->Ok_0;
        let rs = resolve_all_spec(prefix, base, default_windows, override_windows, items, home)->Ok_0;
        assert forall|i: int| 0 <= i < items.len() - 1 implies rs[i] == rs0[i] && items[i] == init[i] by {}
    }
}

} // verus!
