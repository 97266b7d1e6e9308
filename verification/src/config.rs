//! Where the configuration lives, and the edits the command line makes to a
//! store: looking up, creating and deleting configs, adding and removing
//! entries.
use vstd::prelude::*;

use crate::error::{Error, ErrorView};
use crate::model::{
    opt_windows_view, relativize_dir, relativize_spec, Config, Entry, EntryOptions, Store,
    WindowsSpec, WindowsView,
};
use crate::ordered::{
    config_items, config_map_get, config_map_insert, config_map_shift_remove, entry_items,
    entry_map_get, entry_map_insert, entry_map_shift_remove, has_key, index_of_key,
    lemma_index_of_key, lemma_inserted_absent, lemma_inserted_present, lookup, removed,
    worktree_items,
};
use crate::paths::{
    expand_path_in, expand_path_spec, home_dir_from_env, is_absolute, is_absolute_path, join,
    opt_string_view, opt_view, path_join,
};
use crate::text::{chars_of, owned};

verus! {

broadcast use vstd::string::group_string_axioms;

/// The base directory for user configuration: `$XDG_CONFIG_HOME` when it is
/// set and not empty, else the platform's configuration directory, else
/// `.config`.
pub open spec fn user_config_base_spec(
    xdg_config_home: Option<Seq<char>>,
    platform_config_dir: Option<Seq<char>>,
) -> Seq<char> {
    match xdg_config_home {
        Some(x) if x.len() > 0 => x,
        _ => match platform_config_dir {
            Some(d) => d,
            None => ".config"@,
        },
    }
}

/// The base directory for user configuration, from the value of
/// `XDG_CONFIG_HOME` and the platform's configuration directory.
pub fn user_config_base(xdg_config_home: Option<&str>, platform_config_dir: Option<&str>) -> (r:
    String)
    ensures
        r@ == user_config_base_spec(opt_view(xdg_config_home), opt_view(platform_config_dir)),
{
    match xdg_config_home {
        Some(x) => {
            let v = chars_of(x);
            if v.len() > 0 {
                return owned(x);
            }
        },
        None => {},
    }
    match platform_config_dir {
        Some(d) => owned(d),
        None => owned(".config"),
    }
}

/// The directory of this tool's configuration under `base`.
pub fn config_dir(base: &str) -> (r: String)
    ensures
        r@ == path_join(base@, "tmux-manager"@),
{
    join(base, "tmux-manager")
}

/// The configuration file under `base`.
pub fn config_path(base: &str) -> (r: String)
    ensures
        r@ == path_join(path_join(base@, "tmux-manager"@), "config.toml"@),
{
    let d = config_dir(base);
    join(d.as_str(), "config.toml")
}

/// The result of an edit, as a value.
pub open spec fn unit_result_view(r: Result<(), Error>) -> Result<(), ErrorView> {
    match r {
        Ok(()) => Ok(()),
        Err(e) => Err(e@),
    }
}

/// The config named `name`.
pub fn get_config<'a>(store: &'a Store, name: &str) -> (r: Result<&'a Config, Error>)
    ensures
        r is Ok <==> has_key(config_items(store.configs), name@),
        r matches Ok(c) ==> lookup(config_items(store.configs), name@) == Some(*c),
        r matches Err(e) ==> e@ == ErrorView::ConfigNotFound(name@),
{
    match config_map_get(&store.configs, name) {
        Some(c) => Ok(c),
        None => Err(Error::ConfigNotFound(owned(name))),
    }
}

/// `a` and `b` agree in everything but their entries.
pub open spec fn same_but_entries(a: Config, b: Config) -> bool {
    &&& a.root == b.root
    &&& a.windows == b.windows
    &&& a.worktree_parent == b.worktree_parent
    &&& a.worktree_prefix == b.worktree_prefix
    &&& a.worktrees == b.worktrees
}

/// `new` is `old` with the entries of config `name` now `entries`, and
/// everything else as it was.
pub open spec fn entries_changed(
    old: Seq<(Seq<char>, Config)>,
    new: Seq<(Seq<char>, Config)>,
    name: Seq<char>,
    entries: Seq<(Seq<char>, Entry)>,
) -> bool {
    let i = index_of_key(old, name);
    &&& 0 <= i < old.len()
    &&& new.len() == old.len()
    &&& forall|j: int| 0 <= j < old.len() && j != i ==> #[trigger] new[j] == old[j]
    &&& new[i].0 == old[i].0
    &&& same_but_entries(new[i].1, old[i].1)
    &&& entry_items(new[i].1.entries) == entries
}

/// The entries of the config named `name`.
pub open spec fn config_entries(items: Seq<(Seq<char>, Config)>, name: Seq<char>) -> Seq<
    (Seq<char>, Entry),
> {
    entry_items(items[index_of_key(items, name)].1.entries)
}

pub open spec fn starts_with_tilde(d: Seq<char>) -> bool {
    d.len() > 0 && d[0] == '~'
}

/// The directory stored for a new entry: a `~` or absolute directory is
/// expanded; with a config root, an expanded directory is made relative to
/// the expanded root; without a root, the directory must be absolute.
pub open spec fn stored_dir_spec(
    root: Option<Seq<char>>,
    config_name: Seq<char>,
    dir: Seq<char>,
    home: Option<Seq<char>>,
) -> Result<Seq<char>, ErrorView> {
    let expanded = if starts_with_tilde(dir) || is_absolute_path(dir) {
        expand_path_spec(dir, None, home)
    } else {
        Ok(dir)
    };
    match expanded {
        Err(e) => Err(e),
        Ok(x) => match root {
            Some(r) => match expand_path_spec(r, None, home) {
                Err(e) => Err(e),
                Ok(er) => if is_absolute_path(x) || starts_with_tilde(x) {
                    Ok(relativize_spec(er, x))
                } else {
                    Ok(x)
                },
            },
            None => if is_absolute_path(x) {
                Ok(x)
            } else {
                Err(ErrorView::RootlessNeedsAbsolute(config_name))
            },
        },
    }
}

/// The entry added for `dir`: a plain directory, or a detailed entry when a
/// window count or a command is given.
pub open spec fn new_entry_is(
    e: Entry,
    dir: Seq<char>,
    windows: Option<u32>,
    cmd: Option<Seq<char>>,
) -> bool {
    if windows is Some || cmd is Some {
        &&& e matches Entry::Detailed(o)
        &&& o.dir@ == dir
        &&& opt_windows_view(o.windows) == match windows {
            Some(n) => Some(WindowsView::Count(n)),
            None => None,
        }
        &&& opt_string_view(o.cmd) == cmd
    } else {
        e matches Entry::Simple(d) && d@ == dir
    }
}

/// What adding an entry does: an error (and no change) when the config is
/// missing, the key exists, or the directory cannot be stored; otherwise the
/// entry goes last among the config's entries.
pub open spec fn add_entry_post(
    old: Store,
    new: Store,
    config_name: Seq<char>,
    key: Seq<char>,
    dir: Seq<char>,
    windows: Option<u32>,
    cmd: Option<Seq<char>>,
    home: Option<Seq<char>>,
    r: Result<(), ErrorView>,
) -> bool {
    let items = config_items(old.configs);
    if !has_key(items, config_name) {
        r == Err::<(), ErrorView>(ErrorView::ConfigNotFound(config_name)) && new == old
    } else if has_key(config_entries(items, config_name), key) {
        r == Err::<(), ErrorView>(ErrorView::EntryExists { entry: key, config: config_name })
            && new == old
    } else {
        let cfg = items[index_of_key(items, config_name)].1;
        match stored_dir_spec(opt_string_view(cfg.root), config_name, dir, home) {
            Err(e) => r == Err::<(), ErrorView>(e) && new == old,
            Ok(d) => {
                let new_items = config_items(new.configs);
                let added = config_entries(new_items, config_name);
                &&& r == Ok::<(), ErrorView>(())
                &&& added.len() > 0
                &&& entries_changed(
                    items,
                    new_items,
                    config_name,
                    config_entries(items, config_name).push((key, added.last().1)),
                )
                &&& new_entry_is(added.last().1, d, windows, cmd)
            },
        }
    }
}

/// Replaces the entries of the config at `name` (which exists), keeping all
/// else.
fn set_entries(
    store: &mut Store,
    config_name: &str,
    f_key: String,
    f_entry: Option<Entry>,
) -> (removed_entry: Option<Entry>)
    requires
        has_key(config_items(old(store).configs), config_name@),
    ensures
        match f_entry {
            Some(e) => entries_changed(
                config_items(old(store).configs),
                config_items(final(store).configs),
                config_name@,
                crate::ordered::inserted(
                    config_entries(config_items(old(store).configs), config_name@),
                    f_key@,
                    e,
                ),
            ),
            None => entries_changed(
                config_items(old(store).configs),
                config_items(final(store).configs),
                config_name@,
                removed(config_entries(config_items(old(store).configs), config_name@), f_key@),
            ) && removed_entry == lookup(
                config_entries(config_items(old(store).configs), config_name@),
                f_key@,
            ),
        },
        index_of_key(config_items(final(store).configs), config_name@) == index_of_key(
            config_items(old(store).configs),
            config_name@,
        ),
{
    let ghost items = config_items(store.configs);
    proof {
        lemma_index_of_key(items, config_name@);
    }
    let placeholder = Config::new(None, 0);
    let taken = config_map_insert(&mut store.configs, owned(config_name), placeholder);
    let ghost mid = config_items(store.configs);
    proof {
        lemma_inserted_present(items, config_name@, placeholder);
    }
    let mut cfg = match taken {
        Some(c) => c,
        None => {
            assert(false);
            Config::new(None, 0)
        },
    };
    let ghost old_cfg = cfg;
    let removed_entry = match f_entry {
        Some(e) => {
            entry_map_insert(&mut cfg.entries, f_key, e);
            None
        },
        None => entry_map_shift_remove(&mut cfg.entries, f_key.as_str()),
    };
    let ghost new_cfg = cfg;
    config_map_insert(&mut store.configs, owned(config_name), cfg);
    proof {
        lemma_inserted_present(mid, config_name@, new_cfg);
        let i = index_of_key(items, config_name@);
        assert(config_items(store.configs) =~= items.update(i, (items[i].0, new_cfg)));
    }
    removed_entry
}

/// Adds entry `key` for directory `dir` to config `config_name`, with the
/// given home directory. See [`add_entry_post`].
pub fn add_entry_in(
    store: &mut Store,
    config_name: &str,
    key: &str,
    dir: String,
    windows: Option<u32>,
    cmd: Option<String>,
    home: Option<&str>,
) -> (r: Result<(), Error>)
    ensures
        add_entry_post(
            *old(store),
            *final(store),
            config_name@,
            key@,
            dir@,
            windows,
            opt_string_view(cmd),
            opt_view(home),
            unit_result_view(r),
        ),
{
    let ghost items = config_items(store.configs);
    proof {
        lemma_index_of_key(items, config_name@);
    }
    let config = match config_map_get(&store.configs, config_name) {
        Some(c) => c,
        None => return Err(Error::ConfigNotFound(owned(config_name))),
    };
    if entry_map_get(&config.entries, key).is_some() {
        return Err(Error::EntryExists { entry: owned(key), config: owned(config_name) });
    }
    let dv = chars_of(dir.as_str());
    let expanded = if (dv.len() > 0 && dv[0] == '~') || is_absolute(dir.as_str()) {
        match expand_path_in(dir.as_str(), None, home) {
            Ok(x) => x,
            Err(e) => return Err(e),
        }
    } else {
        dir
    };
    let ev = chars_of(expanded.as_str());
    let stored_dir = match &config.root {
        Some(root) => {
            let expanded_root = match expand_path_in(root.as_str(), None, home) {
                Ok(x) => x,
                Err(e) => return Err(e),
            };
            if is_absolute(expanded.as_str()) || (ev.len() > 0 && ev[0] == '~') {
                relativize_dir(expanded_root.as_str(), expanded.as_str())
            } else {
                expanded
            }
        },
        None => {
            if is_absolute(expanded.as_str()) {
                expanded
            } else {
                return Err(Error::RootlessNeedsAbsolute(owned(config_name)));
            }
        },
    };
    let ghost d = stored_dir@;
    let has_options = windows.is_some() || cmd.is_some();
    let entry = if has_options {
        Entry::Detailed(
            EntryOptions {
                dir: stored_dir,
                windows: match windows {
                    Some(n) => Some(WindowsSpec::Count(n)),
                    None => None,
                },
                cmd,
            },
        )
    } else {
        Entry::from_dir(stored_dir)
    };
    let ghost e = entry;
    let ghost old_entries = config_entries(items, config_name@);
    set_entries(store, config_name, owned(key), Some(entry));
    proof {
        lemma_inserted_absent(old_entries, key@, e);
        let new_items = config_items(store.configs);
        assert(config_entries(new_items, config_name@) == old_entries.push((key@, e)));
    }
    Ok(())
}

/// Adds entry `key` for directory `dir` to config `config_name`. A `~` or
/// absolute directory is stored relative to the config's root; without a
/// root it must be absolute. The home directory comes from the environment.
pub fn add_entry(
    store: &mut Store,
    config_name: &str,
    key: &str,
    dir: String,
    windows: Option<u32>,
    cmd: Option<String>,
) -> (r: Result<(), Error>)
    ensures
        exists|home: Option<Seq<char>>|
            #[trigger] add_entry_post(
                *old(store),
                *final(store),
                config_name@,
                key@,
                dir@,
                windows,
                opt_string_view(cmd),
                home,
                unit_result_view(r),
            ),
{
    let home = home_dir_from_env();
    let ghost h = opt_string_view(home);
    let ghost c = opt_string_view(cmd);
    match &home {
        Some(h) => add_entry_in(store, config_name, key, dir, windows, cmd, Some(h.as_str())),
        None => add_entry_in(store, config_name, key, dir, windows, cmd, None),
    }
}

/// Removes entry `key` from config `config_name`: an error (and no change)
/// when the config or the entry does not exist.
pub fn remove_entry(store: &mut Store, config_name: &str, key: &str) -> (r: Result<(), Error>)
    ensures
        !has_key(config_items(old(store).configs), config_name@) ==> unit_result_view(r) == Err::<
            (),
            ErrorView,
        >(ErrorView::ConfigNotFound(config_name@)) && *final(store) == *old(store),
        has_key(config_items(old(store).configs), config_name@) && !has_key(
            config_entries(config_items(old(store).configs), config_name@),
            key@,
        ) ==> unit_result_view(r) == Err::<(), ErrorView>(
            ErrorView::EntryNotFound { entry: key@, config: config_name@ },
        ) && *final(store) == *old(store),
        has_key(config_items(old(store).configs), config_name@) && has_key(
            config_entries(config_items(old(store).configs), config_name@),
            key@,
        ) ==> r is Ok && entries_changed(
            config_items(old(store).configs),
            config_items(final(store).configs),
            config_name@,
            removed(config_entries(config_items(old(store).configs), config_name@), key@),
        ),
{
    let config = match config_map_get(&store.configs, config_name) {
        Some(c) => c,
        None => return Err(Error::ConfigNotFound(owned(config_name))),
    };
    if entry_map_get(&config.entries, key).is_none() {
        return Err(Error::EntryNotFound { entry: owned(key), config: owned(config_name) });
    }
    set_entries(store, config_name, owned(key), None);
    Ok(())
}

/// Creates config `name` with the given settings and no entries: an error
/// (and no change) when it exists already; otherwise it goes last.
pub fn create_config(
    store: &mut Store,
    name: &str,
    root: Option<String>,
    windows: u32,
    worktree_parent: Option<String>,
    worktree_prefix: Option<String>,
) -> (r: Result<(), Error>)
    ensures
        has_key(config_items(old(store).configs), name@) ==> unit_result_view(r) == Err::<
            (),
            ErrorView,
        >(ErrorView::ConfigExists(name@)) && *final(store) == *old(store),
        !has_key(config_items(old(store).configs), name@) ==> {
            let new_items = config_items(final(store).configs);
            let c = new_items.last().1;
            &&& r is Ok
            &&& new_items.len() == config_items(old(store).configs).len() + 1
            &&& new_items.drop_last() == config_items(old(store).configs)
            &&& new_items.last().0 == name@
            &&& c.root == root
            &&& c.windows == windows
            &&& c.worktree_parent == worktree_parent
            &&& c.worktree_prefix == worktree_prefix
            &&& entry_items(c.entries).len() == 0
            &&& worktree_items(c.worktrees).len() == 0
        },
{
    if config_map_get(&store.configs, name).is_some() {
        return Err(Error::ConfigExists(owned(name)));
    }
    let mut config = Config::new(root, windows);
    config.worktree_parent = worktree_parent;
    config.worktree_prefix = worktree_prefix;
    let ghost c = config;
    let ghost items = config_items(store.configs);
    config_map_insert(&mut store.configs, owned(name), config);
    proof {
        lemma_inserted_absent(items, name@, c);
        assert(config_items(store.configs).drop_last() =~= items);
    }
    Ok(())
}

/// Deletes config `name`: an error (and no change) when it does not exist;
/// the other configs keep their order.
pub fn delete_config(store: &mut Store, name: &str) -> (r: Result<(), Error>)
    ensures
        r is Ok <==> has_key(config_items(old(store).configs), name@),
        r matches Err(e) ==> e@ == ErrorView::ConfigNotFound(name@),
        config_items(final(store).configs) == removed(config_items(old(store).configs), name@),
{
    match config_map_shift_remove(&mut store.configs, name) {
        Some(_) => Ok(()),
        None => {
            proof {
                lemma_index_of_key(config_items(old(store).configs), name@);
            }
            Err(Error::ConfigNotFound(owned(name)))
        },
    }
}

proof fn lemma_removed_pushed<V>(items: Seq<(Seq<char>, V)>, key: Seq<char>, v: V)
    requires
        !has_key(items, key),
    ensures
        removed(items.push((key, v)), key) == items,
        lookup(items.push((key, v)), key) == Some(v),
{
    lemma_inserted_absent(items, key, v);
    assert(items.push((key, v)).remove(items.len() as int) =~= items);
}

/// Creating a config and then deleting it leaves the configs as they were:
/// `created` is what `create_config` leaves when `name` is new.
pub proof fn law_create_then_delete_restores(
    configs: Seq<(Seq<char>, Config)>,
    created: Seq<(Seq<char>, Config)>,
    name: Seq<char>,
)
    requires
        !has_key(configs, name),
        created.len() == configs.len() + 1,
        created.drop_last() == configs,
        created.last().0 == name,
    ensures
        removed(created, name) == configs,
        has_key(created, name),
{
    assert(created =~= configs.push((name, created.last().1)));
    lemma_removed_pushed(configs, name, created.last().1);
}

/// Adding an entry and then removing it leaves the entries as they were, and
/// in between the entry is found under its key: `added` is what `add_entry`
/// leaves as the config's entries.
pub proof fn law_add_then_remove_entry_restores(
    entries: Seq<(Seq<char>, Entry)>,
    key: Seq<char>,
    e: Entry,
)
    requires
        !has_key(entries, key),
    ensures
        lookup(entries.push((key, e)), key) == Some(e),
        has_key(entries.push((key, e)), key),
        removed(entries.push((key, e)), key) == entries,
{
    lemma_removed_pushed(entries, key, e);
}

/// An edit that fails leaves the store unchanged; adding to a missing config,
/// adding an existing key, removing a missing entry, or creating an existing
/// config always fails.
pub proof fn law_failed_edits_change_nothing(
    old: Store,
    new: Store,
    config_name: Seq<char>,
    key: Seq<char>,
    dir: Seq<char>,
    windows: Option<u32>,
    cmd: Option<Seq<char>>,
    home: Option<Seq<char>>,
    r: Result<(), ErrorView>,
)
    requires
        add_entry_post(old, new, config_name, key, dir, windows, cmd, home, r),
    ensures
        r is Err ==> new == old,
        !has_key(config_items(old.configs), config_name) ==> r is Err,
        has_key(config_items(old.configs), config_name) && has_key(
            config_entries(config_items(old.configs), config_name),
            key,
        ) ==> r is Err,
{
}

} // verus!
