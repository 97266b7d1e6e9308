//! Migration from the legacy JSON configuration: converting legacy configs
//! into configs with a common root and relative entries, merging them into an
//! existing store, and the decisions around a migration run. Reading, writing
//! and renaming files is left to the caller.
use vstd::prelude::*;

use crate::error::{Error, ErrorView};
use crate::model::{
    common_path_prefix, common_path_prefix_spec, config_pairs_view, entry_pairs_view,
    entry_view_dir, relativize_dir, relativize_spec, Config, ConfigView, Entry, EntryView, Store,
    DEFAULT_WINDOWS,
};
use crate::ordered::{
    config_items, config_map_get, config_map_get_index, config_map_insert, config_map_into_pairs,
    config_map_len,
    config_map_new, entry_items, entry_map_get_index, entry_map_insert, entry_map_len, has_key,
    index_of_key, inserted, lemma_index_of_key, lemma_inserted_absent, lemma_inserted_present, lookup,
    worktree_items, worktree_map_len,
};
use crate::paths::{
    expand_path_in, expand_path_spec, home_dir_from_env, is_absolute, is_absolute_path, join,
    opt_string_view, opt_view, path_join,
};
use crate::text::{
    chars_of, chars_starts_with, concat2, concat3, join_with, owned, push_all, string_from_chars,
    views,
};

verus! {

broadcast use vstd::string::group_string_axioms;

/// Where the legacy configuration lived, under the user configuration base.
pub const LEGACY_CONFIG: &'static str = "tmux-manager-nodejs/config.json";

/// The window count of a legacy config that does not give one.
pub fn default_legacy_windows() -> (n: u32)
    ensures
        n == DEFAULT_WINDOWS,
{
    DEFAULT_WINDOWS
}

/// The key positions of a map and of its view agree.
pub proof fn lemma_index_of_key_view(items: Seq<(Seq<char>, Entry)>, key: Seq<char>)
    ensures
        index_of_key(entry_pairs_view(items), key) == index_of_key(items, key),
    decreases items.len(),
{
    if items.len() > 0 {
        lemma_index_of_key_view(items.drop_last(), key);
        assert(entry_pairs_view(items).drop_last() =~= entry_pairs_view(items.drop_last()));
    }
}

pub proof fn lemma_config_index_of_key_view(items: Seq<(Seq<char>, Config)>, key: Seq<char>)
    ensures
        index_of_key(config_pairs_view(items), key) == index_of_key(items, key),
    decreases items.len(),
{
    if items.len() > 0 {
        lemma_config_index_of_key_view(items.drop_last(), key);
        assert(config_pairs_view(items).drop_last() =~= config_pairs_view(items.drop_last()));
    }
}

/// An entry with an absolute directory, rewritten as a plain entry relative
/// to the expanded root; other entries as they are.
pub open spec fn normalize_entry(expanded_root: Seq<char>, p: (Seq<char>, EntryView)) -> (
    Seq<char>,
    EntryView,
) {
    if is_absolute_path(entry_view_dir(p.1)) {
        (p.0, EntryView::Simple(relativize_spec(expanded_root, entry_view_dir(p.1))))
    } else {
        p
    }
}

/// A config with its absolute entry paths made relative to its root; a
/// config without a root, or whose root cannot be expanded, is unchanged.
pub open spec fn normalize_view(c: ConfigView, home: Option<Seq<char>>) -> ConfigView {
    match c.root {
        None => c,
        Some(r) => match expand_path_spec(r, None, home) {
            Err(_) => c,
            Ok(er) => ConfigView {
                entries: c.entries.map_values(
                    |p: (Seq<char>, EntryView)| normalize_entry(er, p),
                ),
                ..c
            },
        },
    }
}

/// Makes the absolute entry paths of `config` relative to its root, with the
/// given home directory.
pub fn normalize_config_paths_in(config: &mut Config, home: Option<&str>)
    ensures
        final(config)@ == normalize_view(old(config)@, opt_view(home)),
        final(config).root == old(config).root,
        final(config).windows == old(config).windows,
        final(config).worktree_parent == old(config).worktree_parent,
        final(config).worktree_prefix == old(config).worktree_prefix,
        final(config).worktrees == old(config).worktrees,
{
    let ghost original = config@;
    let expanded_root = match &config.root {
        Some(root) => match expand_path_in(root.as_str(), None, home) {
            Ok(x) => x,
            Err(_) => return ,
        },
        None => return ,
    };
    let ghost er = expanded_root@;
    let ghost orig = original.entries;
    let n = entry_map_len(&config.entries);
    let mut i: usize = 0;
    while i < n
        invariant
            i <= n,
            n == orig.len(),
            config.root == old(config).root,
            config.windows == old(config).windows,
            config.worktree_parent == old(config).worktree_parent,
            config.worktree_prefix == old(config).worktree_prefix,
            config.worktrees == old(config).worktrees,
            orig == old(config)@.entries,
            expanded_root@ == er,
            entry_pairs_view(entry_items(config.entries)) == Seq::new(
                n as nat,
                |j: int|
                    if j < i {
                        normalize_entry(er, orig[j])
                    } else {
                        orig[j]
                    },
            ),
        decreases n - i,
    {
        let ghost items = entry_items(config.entries);
        assert(entry_pairs_view(items).len() == items.len());
        proof {
            assert(entry_pairs_view(items)[i as int] == orig[i as int]);
        }
        let (key, rel) = match entry_map_get_index(&config.entries, i) {
            Some((key, entry)) => {
                let dir = entry.dir();
                let rel = if is_absolute(dir.as_str()) {
                    Some(relativize_dir(expanded_root.as_str(), dir.as_str()))
                } else {
                    None
                };
                assert(entry_view_dir(items[i as int].1@) == dir@);
                assert(rel matches Some(r) ==> is_absolute_path(entry_view_dir(orig[i as int].1))
                    && r@ == relativize_spec(er, entry_view_dir(orig[i as int].1)));
                assert(rel is None ==> !is_absolute_path(entry_view_dir(orig[i as int].1)));
                (owned(key.as_str()), rel)
            },
            None => {
                assert(false);
                return ;
            },
        };
        match rel {
            Some(rel) => {
                let ghost e = Entry::Simple(rel);
                proof {
                    lemma_index_of_key(items, key@);
                    lemma_inserted_present(items, key@, e);
                }
                let ghost kv = key@;
                let ghost rv = rel@;
                entry_map_insert(&mut config.entries, key, Entry::Simple(rel));
                assert(kv == items[i as int].0);
                assert(index_of_key(items, kv) == i);
                assert(entry_items(config.entries) == items.update(i as int, (items[i as int].0, e)));
                assert(e@ == EntryView::Simple(rv));
                assert(rv == relativize_spec(er, entry_view_dir(orig[i as int].1)));
                assert(is_absolute_path(entry_view_dir(orig[i as int].1)));
                assert(normalize_entry(er, orig[i as int]) == (items[i as int].0, e@));
                assert(entry_pairs_view(entry_items(config.entries))[i as int] == (
                    items[i as int].0,
                    e@,
                ));
                let ghost prev = entry_pairs_view(items);
                let ghost target = Seq::new(
                    n as nat,
                    |j: int|
                        if j < i + 1 {
                            normalize_entry(er, orig[j])
                        } else {
                            orig[j]
                        },
                );
                let ghost now = entry_pairs_view(entry_items(config.entries));
                assert(prev.len() == n);
                assert(now.len() == n);
                assert forall|j: int| 0 <= j < n implies now[j] == target[j] by {
                    if j != i {
                        assert(entry_items(config.entries)[j] == items[j]);
                        assert(now[j] == prev[j]);
                    }
                }
                assert(now =~= target);
            },
            None => {
                assert(entry_pairs_view(entry_items(config.entries)) =~= Seq::new(
                    n as nat,
                    |j: int|
                        if j < i + 1 {
                            normalize_entry(er, orig[j])
                        } else {
                            orig[j]
                        },
                ));
            },
        }
        i = i + 1;
    }
    assert(config@.entries =~= orig.map_values(
        |p: (Seq<char>, EntryView)| normalize_entry(er, p),
    ));
}

/// Turns absolute entry paths into paths relative to the config root, which
/// worktrees need. The home directory comes from the environment.
pub fn normalize_config_paths(config: &mut Config)
    ensures
        exists|home: Option<Seq<char>>|
            final(config)@ == #[trigger] normalize_view(old(config)@, home),
{
    let home = home_dir_from_env();
    match &home {
        Some(h) => normalize_config_paths_in(config, Some(h.as_str())),
        None => normalize_config_paths_in(config, None),
    }
    assert(config@ == normalize_view(old(config)@, opt_string_view(home)));
}

/// One entry of a legacy config: its name and its absolute directory.
#[derive(Debug)]
pub struct LegacyEntry {
    pub entry_name: String,
    pub directory: String,
}

/// A legacy config: its entries, window count and worktree settings.
#[derive(Debug)]
pub struct LegacyConfig {
    pub entries: Vec<LegacyEntry>,
    pub windows: u32,
    pub worktree_parent: Option<String>,
    pub worktree_prefix: Option<String>,
}

/// A legacy store: its configs by name, in order.
#[derive(Debug)]
pub struct LegacyStore {
    pub configs: Vec<(String, LegacyConfig)>,
}

/// An entry name without its config's `name/` prefix.
pub open spec fn strip_config_prefix_spec(config_name: Seq<char>, entry_name: Seq<char>) -> Seq<
    char,
> {
    let prefix = config_name + "/"@;
    if prefix.is_prefix_of(entry_name) {
        entry_name.skip(prefix.len() as int)
    } else {
        entry_name
    }
}

/// The entry name without the `config_name/` prefix, if it has one.
pub fn strip_config_prefix(config_name: &str, entry_name: &str) -> (r: String)
    ensures
        r@ == strip_config_prefix_spec(config_name@, entry_name@),
{
    let prefix = concat2(config_name, "/");
    let pv = chars_of(prefix.as_str());
    let ev = chars_of(entry_name);
    if chars_starts_with(ev.as_slice(), pv.as_slice()) {
        let rest = vstd::slice::slice_subrange(ev.as_slice(), pv.len(), ev.len());
        assert(ev@.subrange(pv@.len() as int, ev@.len() as int) =~= ev@.skip(pv@.len() as int));
        string_from_chars(rest)
    } else {
        owned(entry_name)
    }
}

pub open spec fn legacy_dirs(lc: LegacyConfig) -> Seq<String> {
    lc.entries@.map_values(|e: LegacyEntry| e.directory)
}

/// The root of a converted config: the longest common path prefix of its
/// entries' directories.
pub open spec fn legacy_root(lc: LegacyConfig) -> Option<Seq<char>> {
    common_path_prefix_spec(legacy_dirs(lc))
}

/// The entries of a converted config after its first `k` legacy entries:
/// keys without the config prefix, directories relative to the root.
pub open spec fn legacy_entries(
    config_name: Seq<char>,
    root: Option<Seq<char>>,
    es: Seq<LegacyEntry>,
    k: int,
) -> Seq<(Seq<char>, EntryView)>
    decreases k,
{
    if k <= 0 {
        Seq::empty()
    } else {
        inserted(
            legacy_entries(config_name, root, es, k - 1),
            strip_config_prefix_spec(config_name, es[k - 1].entry_name@),
            EntryView::Simple(
                match root {
                    Some(r) => relativize_spec(r, es[k - 1].directory@),
                    None => es[k - 1].directory@,
                },
            ),
        )
    }
}

/// A legacy config converted: common root, legacy window count and worktree
/// settings, its entries, then normalized.
pub open spec fn convert_config_spec(
    config_name: Seq<char>,
    lc: LegacyConfig,
    home: Option<Seq<char>>,
) -> ConfigView {
    let root = legacy_root(lc);
    normalize_view(
        ConfigView {
            root,
            windows: lc.windows,
            worktree_parent: opt_string_view(lc.worktree_parent),
            worktree_prefix: opt_string_view(lc.worktree_prefix),
            entries: legacy_entries(config_name, root, lc.entries@, lc.entries@.len() as int),
            worktrees: Seq::empty(),
        },
        home,
    )
}

/// The first `k` legacy configs converted, by name.
pub open spec fn convert_spec(
    configs: Seq<(String, LegacyConfig)>,
    home: Option<Seq<char>>,
    k: int,
) -> Seq<(Seq<char>, ConfigView)>
    decreases k,
{
    if k <= 0 {
        Seq::empty()
    } else {
        inserted(
            convert_spec(configs, home, k - 1),
            configs[k - 1].0@,
            convert_config_spec(configs[k - 1].0@, configs[k - 1].1, home),
        )
    }
}

proof fn lemma_entry_view_inserted(items: Seq<(Seq<char>, Entry)>, key: Seq<char>, e: Entry)
    ensures
        entry_pairs_view(inserted(items, key, e)) == inserted(entry_pairs_view(items), key, e@),
{
    lemma_index_of_key_view(items, key);
    lemma_index_of_key(items, key);
    if index_of_key(items, key) >= 0 {
        assert(entry_pairs_view(inserted(items, key, e)) =~= inserted(
            entry_pairs_view(items),
            key,
            e@,
        ));
    } else {
        assert(entry_pairs_view(inserted(items, key, e)) =~= inserted(
            entry_pairs_view(items),
            key,
            e@,
        ));
    }
}

proof fn lemma_config_view_inserted(items: Seq<(Seq<char>, Config)>, key: Seq<char>, c: Config)
    ensures
        config_pairs_view(inserted(items, key, c)) == inserted(config_pairs_view(items), key, c@),
{
    lemma_config_index_of_key_view(items, key);
    lemma_index_of_key(items, key);
    assert(config_pairs_view(inserted(items, key, c)) =~= inserted(
        config_pairs_view(items),
        key,
        c@,
    ));
}

fn copy_opt_string(o: &Option<String>) -> (r: Option<String>)
    ensures
        opt_string_view(r) == opt_string_view(*o),
{
    match o {
        Some(s) => Some(owned(s.as_str())),
        None => None,
    }
}

/// One legacy config converted, with the given home directory.
fn convert_config(config_name: &str, lc: &LegacyConfig, home: Option<&str>) -> (c: Config)
    ensures
        c@ == convert_config_spec(config_name@, *lc, opt_view(home)),
{
    let mut directories: Vec<String> = Vec::new();
    let mut i: usize = 0;
    while i < lc.entries.len()
        invariant
            i <= lc.entries.len(),
            directories@.len() == i,
            forall|j: int| 0 <= j < i ==> #[trigger] directories@[j]@ == lc.entries@[j].directory@,
        decreases lc.entries.len() - i,
    {
        directories.push(owned(lc.entries[i].directory.as_str()));
        i = i + 1;
    }
    let root = common_path_prefix(directories.as_slice());
    proof {
        assert(views(directories@) =~= views(legacy_dirs(*lc)));
        lemma_common_prefix_views(directories@, legacy_dirs(*lc));
    }
    let ghost rv = opt_string_view(root);
    assert(rv == legacy_root(*lc));
    let mut config = Config::new(copy_opt_string(&root), lc.windows);
    config.worktree_parent = copy_opt_string(&lc.worktree_parent);
    config.worktree_prefix = copy_opt_string(&lc.worktree_prefix);
    let mut k: usize = 0;
    assert(entry_pairs_view(entry_items(config.entries)) =~= Seq::<(Seq<char>, EntryView)>::empty());
    while k < lc.entries.len()
        invariant
            k <= lc.entries.len(),
            rv == legacy_root(*lc),
            rv == opt_string_view(root),
            opt_string_view(config.root) == rv,
            config.windows == lc.windows,
            opt_string_view(config.worktree_parent) == opt_string_view(lc.worktree_parent),
            opt_string_view(config.worktree_prefix) == opt_string_view(lc.worktree_prefix),
            worktree_items(config.worktrees).len() == 0,
            entry_pairs_view(entry_items(config.entries)) == legacy_entries(
                config_name@,
                rv,
                lc.entries@,
                k as int,
            ),
        decreases lc.entries.len() - k,
    {
        let e = &lc.entries[k];
        let key = strip_config_prefix(config_name, e.entry_name.as_str());
        let dir = match &root {
            Some(r) => relativize_dir(r.as_str(), e.directory.as_str()),
            None => owned(e.directory.as_str()),
        };
        let ghost items = entry_items(config.entries);
        let ghost ent = Entry::Simple(dir);
        proof {
            lemma_entry_view_inserted(items, key@, ent);
        }
        entry_map_insert(&mut config.entries, key, Entry::from_dir(dir));
        k = k + 1;
    }
    let ghost before = config@;
    assert(crate::model::worktree_pairs_view(worktree_items(config.worktrees)) =~= Seq::<
        (Seq<char>, crate::model::WorktreeView),
    >::empty());
    normalize_config_paths_in(&mut config, home);
    config
}

proof fn lemma_common_prefix_views(a: Seq<String>, b: Seq<String>)
    requires
        views(a) == views(b),
    ensures
        common_path_prefix_spec(a) == common_path_prefix_spec(b),
{
    assert(a.len() == views(a).len());
    assert(b.len() == views(b).len());
    assert(crate::model::components_of_all(a) =~= crate::model::components_of_all(b)) by {
        assert forall|i: int| 0 <= i < a.len() implies a[i]@ == b[i]@ by {
            assert(views(a)[i] == views(b)[i]);
        }
    }
}

/// The legacy store converted into a store, with the given home directory.
pub fn convert_legacy_in(legacy: &LegacyStore, home: Option<&str>) -> (s: Store)
    ensures
        s@ == convert_spec(legacy.configs@, opt_view(home), legacy.configs@.len() as int),
{
    let mut configs = config_map_new();
    let mut k: usize = 0;
    assert(config_pairs_view(config_items(configs)) =~= Seq::<(Seq<char>, ConfigView)>::empty());
    while k < legacy.configs.len()
        invariant
            k <= legacy.configs.len(),
            config_pairs_view(config_items(configs)) == convert_spec(
                legacy.configs@,
                opt_view(home),
                k as int,
            ),
        decreases legacy.configs.len() - k,
    {
        let name = &legacy.configs[k].0;
        let config = convert_config(name.as_str(), &legacy.configs[k].1, home);
        let ghost items = config_items(configs);
        let ghost c = config;
        proof {
            lemma_config_view_inserted(items, name@, c);
        }
        config_map_insert(&mut configs, owned(name.as_str()), config);
        k = k + 1;
    }
    Store { configs }
}

/// The legacy store converted into a store: each config's root is the common
/// prefix of its directories, its entries lose the `config/` prefix and
/// point below the root. The home directory comes from the environment.
pub fn convert_legacy(legacy: &LegacyStore) -> (s: Store)
    ensures
        exists|home: Option<Seq<char>>|
            s@ == #[trigger] convert_spec(legacy.configs@, home, legacy.configs@.len() as int),
{
    let home = home_dir_from_env();
    let s = match &home {
        Some(h) => convert_legacy_in(legacy, Some(h.as_str())),
        None => convert_legacy_in(legacy, None),
    };
    assert(s@ == convert_spec(
        legacy.configs@,
        opt_string_view(home),
        legacy.configs@.len() as int,
    ));
    s
}

/// An existing config updated from an incoming one: the window count and
/// entries are taken over; root, worktree parent and prefix only when the
/// incoming config sets them; worktree sections only when it has some.
pub open spec fn merged_config(ex: ConfigView, inc: ConfigView) -> ConfigView {
    ConfigView {
        root: if inc.root is Some {
            inc.root
        } else {
            ex.root
        },
        windows: inc.windows,
        worktree_parent: if inc.worktree_parent is Some {
            inc.worktree_parent
        } else {
            ex.worktree_parent
        },
        worktree_prefix: if inc.worktree_prefix is Some {
            inc.worktree_prefix
        } else {
            ex.worktree_prefix
        },
        entries: inc.entries,
        worktrees: if inc.worktrees.len() > 0 {
            inc.worktrees
        } else {
            ex.worktrees
        },
    }
}

/// The configs after merging one incoming config: an existing config of that
/// name is updated in place, otherwise the config goes last.
pub open spec fn merge_one(items: Seq<(Seq<char>, ConfigView)>, name: Seq<char>, inc: ConfigView) -> Seq<
    (Seq<char>, ConfigView),
> {
    let i = index_of_key(items, name);
    if i >= 0 {
        items.update(i, (items[i].0, merged_config(items[i].1, inc)))
    } else {
        items.push((name, inc))
    }
}

/// The existing configs after merging every incoming config, each first
/// normalized, in order.
pub open spec fn merge_spec(
    existing: Seq<(Seq<char>, ConfigView)>,
    incoming: Seq<(Seq<char>, ConfigView)>,
    home: Option<Seq<char>>,
) -> Seq<(Seq<char>, ConfigView)>
    decreases incoming.len(),
{
    if incoming.len() == 0 {
        existing
    } else {
        merge_one(
            merge_spec(existing, incoming.drop_last(), home),
            incoming.last().0,
            normalize_view(incoming.last().1, home),
        )
    }
}

/// Merges the configs of `incoming` into `existing`, with the given home
/// directory; returns how many configs were merged.
pub fn merge_stores_in(existing: &mut Store, incoming: Store, home: Option<&str>) -> (n: usize)
    ensures
        final(existing)@ == merge_spec(old(existing)@, incoming@, opt_view(home)),
        n == incoming@.len(),
{
    let ghost inc = incoming@;
    let ghost hv = opt_view(home);
    let mut pairs = config_map_into_pairs(incoming.configs);
    let ghost all_pairs = pairs@;
    let total = pairs.len();
    let mut n: usize = 0;
    assert(inc.take(0) =~= Seq::<(Seq<char>, ConfigView)>::empty());
    while n < total
        invariant
            n <= total,
            total == inc.len(),
            pairs@.len() == total - n,
            all_pairs.len() == total,
            forall|i: int|
                0 <= i < total ==> (#[trigger] all_pairs[i]).0@ == inc[i].0 && all_pairs[i].1@
                    == inc[i].1,
            forall|i: int| 0 <= i < total - n ==> #[trigger] pairs@[i] == all_pairs[i + n],
            existing@ == merge_spec(old(existing)@, inc.take(n as int), hv),
            hv == opt_view(home),
        decreases total - n,
    {
        let (name, mut cfg) = pairs.remove(0);
        assert(name@ == inc[n as int].0 && cfg@ == inc[n as int].1) by {
            assert(all_pairs[n as int] == (name, cfg));
        }
        normalize_config_paths_in(&mut cfg, home);
        let ghost items = config_items(existing.configs);
        proof {
            lemma_config_index_of_key_view(items, name@);
            lemma_index_of_key(items, name@);
        }
        if config_map_get(&existing.configs, name.as_str()).is_some() {
            let placeholder = Config::new(None, 0);
            let taken = config_map_insert(&mut existing.configs, owned(name.as_str()), placeholder);
            let ghost mid = config_items(existing.configs);
            proof {
                lemma_inserted_present(items, name@, placeholder);
            }
            let ex = match taken {
                Some(c) => c,
                None => {
                    assert(false);
                    Config::new(None, 0)
                },
            };
            let keep_worktrees = worktree_map_len(&cfg.worktrees) == 0;
            let merged = Config {
                root: if cfg.root.is_some() {
                    cfg.root
                } else {
                    ex.root
                },
                windows: cfg.windows,
                worktree_parent: if cfg.worktree_parent.is_some() {
                    cfg.worktree_parent
                } else {
                    ex.worktree_parent
                },
                worktree_prefix: if cfg.worktree_prefix.is_some() {
                    cfg.worktree_prefix
                } else {
                    ex.worktree_prefix
                },
                entries: cfg.entries,
                worktrees: if keep_worktrees {
                    ex.worktrees
                } else {
                    cfg.worktrees
                },
            };
            let ghost m = merged;
            assert(m@ == merged_config(ex@, cfg@));
            config_map_insert(&mut existing.configs, name, merged);
            proof {
                lemma_inserted_present(mid, name@, m);
                let i = index_of_key(items, name@);
                assert(config_items(existing.configs) =~= items.update(i, (items[i].0, m)));
                assert(existing@ =~= merge_one(config_pairs_view(items), name@, cfg@));
            }
        } else {
            let ghost c = cfg;
            proof {
                lemma_config_view_inserted(items, name@, c);
                lemma_inserted_absent(items, name@, c);
            }
            config_map_insert(&mut existing.configs, name, cfg);
            assert(existing@ =~= merge_one(config_pairs_view(items), name@, c@));
        }
        assert(inc.take(n + 1).drop_last() =~= inc.take(n as int));
        n = n + 1;
    }
    assert(inc.take(total as int) =~= inc);
    n
}

/// Merges the configs of `incoming` into `existing` (see [`merge_spec`]);
/// returns how many were merged. The home directory comes from the
/// environment.
pub fn merge_stores(existing: &mut Store, incoming: Store) -> (n: usize)
    ensures
        exists|home: Option<Seq<char>>|
            final(existing)@ == #[trigger] merge_spec(old(existing)@, incoming@, home),
        n == incoming@.len(),
{
    let home = home_dir_from_env();
    let ghost inc = incoming@;
    let n = match &home {
        Some(h) => merge_stores_in(existing, incoming, Some(h.as_str())),
        None => merge_stores_in(existing, incoming, None),
    };
    assert(existing@ == merge_spec(old(existing)@, inc, opt_string_view(home)));
    n
}

/// What a migration writes: an error when the legacy store has no configs;
/// the converted store when there is no existing store or `force` is set;
/// otherwise the existing store with the converted configs merged in, and
/// how many were merged.
pub fn migration_store_in(incoming: Store, existing: Option<Store>, force: bool, home: Option<&str>) -> (r: Result<
    (Store, Option<usize>),
    Error,
>)
    ensures
        incoming@.len() == 0 ==> (r matches Err(e) && e@ == ErrorView::LegacyHasNoProjects),
        incoming@.len() > 0 ==> match existing {
            Some(ex) if !force => r matches Ok((s, Some(n))) && s@ == merge_spec(
                ex@,
                incoming@,
                opt_view(home),
            ) && n == incoming@.len(),
            _ => r matches Ok((s, None)) && s@ == incoming@,
        },
{
    if config_map_len(&incoming.configs) == 0 {
        return Err(Error::LegacyHasNoProjects);
    }
    match existing {
        Some(mut ex) => {
            if force {
                Ok((incoming, None))
            } else {
                let n = merge_stores_in(&mut ex, incoming, home);
                Ok((ex, Some(n)))
            }
        },
        None => Ok((incoming, None)),
    }
}

/// What a migration writes (see [`migration_store_in`]); the home directory
/// comes from the environment.
pub fn migration_store(incoming: Store, existing: Option<Store>, force: bool) -> (r: Result<
    (Store, Option<usize>),
    Error,
>)
    ensures
        incoming@.len() == 0 ==> (r matches Err(e) && e@ == ErrorView::LegacyHasNoProjects),
        incoming@.len() > 0 ==> match existing {
            Some(ex) if !force => exists|home: Option<Seq<char>>|
                r matches Ok((s, Some(n))) && s@ == #[trigger] merge_spec(ex@, incoming@, home) && n
                    == incoming@.len(),
            _ => r matches Ok((s, None)) && s@ == incoming@,
        },
{
    let home = home_dir_from_env();
    let ghost inc = incoming@;
    let ghost exv = existing;
    let r = match &home {
        Some(h) => migration_store_in(incoming, existing, force, Some(h.as_str())),
        None => migration_store_in(incoming, existing, force, None),
    };
    proof {
        if inc.len() > 0 {
            match exv {
                Some(ex) => {
                    if !force {
                        assert(r matches Ok((s, Some(n))) && s@ == merge_spec(
                            ex@,
                            inc,
                            opt_string_view(home),
                        ));
                    }
                },
                None => {},
            }
        }
    }
    r
}

/// The places the legacy configuration may be, in order of preference: under
/// the user configuration base, and, where `macos_home` is given, in the
/// macOS preferences directory under that home.
pub fn legacy_config_candidates(config_base: &str, macos_home: Option<&str>) -> (r: Vec<String>)
    ensures
        views(r@) == seq![path_join(config_base@, LEGACY_CONFIG@)] + match macos_home {
            Some(h) => seq![path_join(h@, "Library/Preferences/tmux-manager-nodejs/config.json"@)],
            None => Seq::<Seq<char>>::empty(),
        },
{
    let mut r: Vec<String> = Vec::new();
    r.push(join(config_base, LEGACY_CONFIG));
    match macos_home {
        Some(h) => {
            r.push(join(h, "Library/Preferences/tmux-manager-nodejs/config.json"));
        },
        None => {},
    }
    assert(views(r@) =~= seq![path_join(config_base@, LEGACY_CONFIG@)] + match macos_home {
        Some(h) => seq![path_join(h@, "Library/Preferences/tmux-manager-nodejs/config.json"@)],
        None => Seq::<Seq<char>>::empty(),
    });
    r
}

/// The first candidate that exists (`exists[i]` tells whether candidate `i`
/// does; a candidate without a flag counts as missing).
pub fn find_legacy_config(candidates: &[String], exists: &[bool]) -> (r: Option<String>)
    ensures
        match r {
            Some(p) => exists|i: int|
                0 <= i < candidates@.len() && i < exists@.len() && exists@[i] && p@ == candidates@[i]@
                    && forall|j: int|
                    0 <= j < i && j < exists@.len() ==> !#[trigger] exists@[j],
            None => forall|i: int|
                0 <= i < candidates@.len() && i < exists@.len() ==> !#[trigger] exists@[i],
        },
{
    let mut i: usize = 0;
    while i < candidates.len()
        invariant
            i <= candidates.len(),
            forall|j: int| 0 <= j < i && j < exists@.len() ==> !#[trigger] exists@[j],
        decreases candidates.len() - i,
    {
        if i < exists.len() && exists[i] {
            return Some(owned(candidates[i].as_str()));
        }
        i = i + 1;
    }
    None
}

/// The legacy configuration path to report: the one found, else the first
/// candidate, else the bare legacy location.
pub fn legacy_config_path(found: Option<String>, candidates: &[String]) -> (r: String)
    ensures
        r@ == match found {
            Some(f) => f@,
            None => if candidates@.len() > 0 {
                candidates@[0]@
            } else {
                LEGACY_CONFIG@
            },
        },
{
    match found {
        Some(f) => f,
        None => if candidates.len() > 0 {
            owned(candidates[0].as_str())
        } else {
            owned(LEGACY_CONFIG)
        },
    }
}

/// The message for a migration that finds no legacy configuration.
pub fn missing_legacy_message(candidates: &[String]) -> (r: String)
    ensures
        r@ == "no legacy tmux-manager JSON config found (searched: "@ + join_with(
            views(candidates@),
            ", "@,
        ) + ")"@,
{
    let mut acc: Vec<char> = Vec::new();
    let sep = chars_of(", ");
    let mut i: usize = 0;
    while i < candidates.len()
        invariant
            i <= candidates.len(),
            sep@ == ", "@,
            acc@ == join_with(views(candidates@).take(i as int), ", "@),
        decreases candidates.len() - i,
    {
        let c = chars_of(candidates[i].as_str());
        if i > 0 {
            push_all(&mut acc, sep.as_slice());
        }
        push_all(&mut acc, c.as_slice());
        assert(views(candidates@).take(i + 1).drop_last() =~= views(candidates@).take(i as int));
        if i == 0 {
            assert(acc@ =~= c@);
        }
        i = i + 1;
    }
    assert(views(candidates@).take(candidates.len() as int) =~= views(candidates@));
    let joined = string_from_chars(acc.as_slice());
    concat3("no legacy tmux-manager JSON config found (searched: ", joined.as_str(), ")")
}

/// A converted legacy config keeps the legacy window count, worktree parent
/// and worktree prefix, is rooted at the common prefix of the legacy
/// directories, and has no worktree sections.
pub proof fn law_conversion_keeps_settings(
    config_name: Seq<char>,
    lc: LegacyConfig,
    home: Option<Seq<char>>,
)
    ensures
        convert_config_spec(config_name, lc, home).windows == lc.windows,
        convert_config_spec(config_name, lc, home).worktree_parent == match lc.worktree_parent {
            Some(p) => Some(p@),
            None => None::<Seq<char>>,
        },
        convert_config_spec(config_name, lc, home).worktree_prefix == match lc.worktree_prefix {
            Some(p) => Some(p@),
            None => None::<Seq<char>>,
        },
        convert_config_spec(config_name, lc, home).root == common_path_prefix_spec(
            lc.entries@.map_values(|e: LegacyEntry| e.directory),
        ),
        convert_config_spec(config_name, lc, home).worktrees.len() == 0,
{
}

/// Merging keeps every existing config that no incoming config names, as it
/// was, and leaves a config under every incoming name.
pub proof fn law_merge_keeps_others(
    existing: Seq<(Seq<char>, ConfigView)>,
    incoming: Seq<(Seq<char>, ConfigView)>,
    home: Option<Seq<char>>,
    key: Seq<char>,
)
    ensures
        (forall|i: int| 0 <= i < incoming.len() ==> #[trigger] incoming[i].0 != key) ==> lookup(
            merge_spec(existing, incoming, home),
            key,
        ) == lookup(existing, key),
        (exists|i: int| 0 <= i < incoming.len() && #[trigger] incoming[i].0 == key) ==> has_key(
            merge_spec(existing, incoming, home),
            key,
        ),
    decreases incoming.len(),
{
    if incoming.len() > 0 {
        let init = incoming.drop_last();
        law_merge_keeps_others(existing, init, home, key);
        let m = merge_spec(existing, init, home);
        let name = incoming.last().0;
        let inc = normalize_view(incoming.last().1, home);
        lemma_index_of_key(m, name);
        lemma_index_of_key(m, key);
        let r = merge_one(m, name, inc);
        if index_of_key(m, name) >= 0 {
            let i = index_of_key(m, name);
            assert forall|j: int| 0 <= j < r.len() implies #[trigger] r[j].0 == m[j].0 by {}
            lemma_same_keys_same_index(m, r, key);
            lemma_same_keys_same_index(m, r, name);
        } else {
            assert forall|j: int| 0 <= j < m.len() implies #[trigger] r[j] == m[j] by {}
            if index_of_key(m, key) >= 0 {
                crate::ordered::lemma_index_of_key_at(r, key, index_of_key(m, key));
            } else if key == name {
                crate::ordered::lemma_index_of_key_at(r, key, m.len() as int);
            } else {
                lemma_index_of_key(r, key);
            }
        }
        if forall|i: int| 0 <= i < incoming.len() ==> #[trigger] incoming[i].0 != key {
            assert forall|i: int| 0 <= i < init.len() implies #[trigger] init[i].0 != key by {
                assert(init[i] == incoming[i]);
            }
            assert(incoming[incoming.len() - 1].0 != key);
        }
        if exists|i: int| 0 <= i < incoming.len() && #[trigger] incoming[i].0 == key {
            let i = choose|i: int| 0 <= i < incoming.len() && #[trigger] incoming[i].0 == key;
            if i < incoming.len() - 1 {
                assert(init[i].0 == key);
            }
        }
    }
}

proof fn lemma_same_keys_same_index(
    a: Seq<(Seq<char>, ConfigView)>,
    b: Seq<(Seq<char>, ConfigView)>,
    key: Seq<char>,
)
    requires
        a.len() == b.len(),
        forall|j: int| 0 <= j < b.len() ==> #[trigger] b[j].0 == a[j].0,
    ensures
        index_of_key(a, key) == index_of_key(b, key),
    decreases a.len(),
{
    if a.len() > 0 {
        assert forall|j: int| 0 <= j < b.drop_last().len() implies #[trigger] b.drop_last()[j].0
            == a.drop_last()[j].0 by {
            assert(b.drop_last()[j] == b[j]);
            assert(a.drop_last()[j] == a[j]);
        }
        lemma_same_keys_same_index(a.drop_last(), b.drop_last(), key);
    }
}

} // verus!
