//! Choosing which resolved entries a `start` or `kill` acts on, and the
//! listings that `ls` prints.
use vstd::prelude::*;

use crate::matcher::{all_patterns_defined, resolve_keys_spec, try_resolve_entry_keys};
use crate::model::{resolved_views, Config, ResolvedEntry, ResolvedView, Store};
use crate::ordered::{config_items, config_map_get_index, config_map_len, entry_items, entry_map_len};
use crate::paths::opt_string_view;
use crate::text::{concat2, concat3, decimal, decimal_string, owned, views};
use crate::tmux::holds_name;

verus! {

broadcast use vstd::string::group_string_axioms;

/// The keys of resolved entries, in order.
pub open spec fn resolved_keys(es: Seq<ResolvedView>) -> Seq<Seq<char>> {
    es.map_values(|e: ResolvedView| e.key)
}

/// The entries whose key is among `keys`, in their order.
pub open spec fn keyed_in(es: Seq<ResolvedView>, keys: Seq<Seq<char>>) -> Seq<ResolvedView> {
    es.filter(|e: ResolvedView| keys.contains(e.key))
}

/// The outcome of selecting entries by patterns: the entries chosen, the keys
/// the patterns matched, and the patterns that matched nothing.
pub struct Selection {
    pub entries: Vec<ResolvedEntry>,
    pub matched: Vec<String>,
    pub unmatched: Vec<String>,
}

fn resolved_key_list(resolved: &Vec<ResolvedEntry>) -> (keys: Vec<String>)
    ensures
        views(keys@) == resolved_keys(resolved_views(resolved@)),
{
    let mut keys: Vec<String> = Vec::new();
    let mut i: usize = 0;
    while i < resolved.len()
        invariant
            i <= resolved.len(),
            views(keys@) == resolved_keys(resolved_views(resolved@)).take(i as int),
        decreases resolved.len() - i,
    {
        let ghost before = views(keys@);
        keys.push(owned(resolved[i].key.as_str()));
        assert(views(keys@) =~= before.push(resolved[i as int].key@));
        assert(resolved_keys(resolved_views(resolved@)).take(i + 1) =~= before.push(
            resolved[i as int].key@,
        ));
        i = i + 1;
    }
    assert(resolved_keys(resolved_views(resolved@)).take(resolved@.len() as int) =~= resolved_keys(
        resolved_views(resolved@),
    ));
    keys
}

/// The entries of `resolved` whose key is among `keys`, in order.
fn keep_keyed(resolved: Vec<ResolvedEntry>, keys: &Vec<String>) -> (r: Vec<ResolvedEntry>)
    ensures
        resolved_views(r@) == keyed_in(resolved_views(resolved@), views(keys@)),
{
    let ghost all = resolved_views(resolved@);
    let ghost ks = views(keys@);
    let n = resolved.len();
    let mut rest = resolved;
    let mut out: Vec<ResolvedEntry> = Vec::new();
    let mut i: usize = 0;
    proof {
        reveal(Seq::filter);
        assert(all.take(0) =~= Seq::<ResolvedView>::empty());
        assert(resolved_views(out@) =~= Seq::<ResolvedView>::empty());
        assert(resolved_views(rest@) =~= all.skip(0));
    }
    while rest.len() > 0
        invariant
            n == all.len(),
            i <= n,
            rest@.len() == n - i,
            ks == views(keys@),
            resolved_views(rest@) == all.skip(i as int),
            resolved_views(out@) == keyed_in(all.take(i as int), ks),
        decreases rest.len(),
    {
        let ghost old_rest = rest@;
        let e = rest.remove(0);
        let ghost ev = e@;
        assert(ev == all[i as int]) by {
            assert(all.skip(i as int)[0] == all[i as int]);
        }
        let ghost before = resolved_views(out@);
        proof {
            reveal(Seq::filter);
            assert(all.take(i + 1).drop_last() =~= all.take(i as int));
            assert(all.take(i + 1).last() == ev);
        }
        if holds_name(keys.as_slice(), e.key.as_str()) {
            out.push(e);
            assert(resolved_views(out@) =~= before.push(ev));
        }
        proof {
            assert(rest@ == old_rest.remove(0));
            assert forall|j: int| 0 <= j < rest@.len() implies #[trigger] resolved_views(rest@)[j]
                == all.skip(i + 1)[j] by {
                assert(rest@[j] == old_rest[j + 1]);
                assert(resolved_views(old_rest)[j + 1] == all.skip(i as int)[j + 1]);
            }
            assert(resolved_views(rest@) =~= all.skip(i + 1));
        }
        i = i + 1;
    }
    assert(all.take(n as int) =~= all);
    out
}

/// Selects among `resolved` the entries that `patterns` name. With no
/// patterns every entry is selected. Otherwise each pattern selects keys as
/// [`crate::matcher::find_matching_keys`] does, and the selection holds the
/// entries of the matched keys in their resolved order, with the keys matched
/// (each once, in the order first matched) and the patterns that matched
/// nothing. `None` when a pattern cannot be evaluated.
pub fn select_entries(resolved: Vec<ResolvedEntry>, patterns: &[String]) -> (r: Option<Selection>)
    ensures
        patterns@.len() == 0 ==> (r matches Some(s) && resolved_views(s.entries@) == resolved_views(
            resolved@,
        ) && s.matched@.len() == 0 && s.unmatched@.len() == 0),
        patterns@.len() > 0 ==> (r is Some <==> all_patterns_defined(
            views(patterns@),
            resolved_keys(resolved_views(resolved@)),
        )),
        patterns@.len() > 0 ==> (r matches Some(s) ==> {
            let keys = resolve_keys_spec(
                views(patterns@),
                resolved_keys(resolved_views(resolved@)),
                patterns@.len() as int,
            );
            &&& views(s.matched@) == keys.0
            &&& views(s.unmatched@) == keys.1
            &&& resolved_views(s.entries@) == keyed_in(resolved_views(resolved@), keys.0)
        }),
{
    if patterns.len() == 0 {
        return Some(Selection { entries: resolved, matched: Vec::new(), unmatched: Vec::new() });
    }
    let keys = resolved_key_list(&resolved);
    match try_resolve_entry_keys(patterns, keys.as_slice()) {
        Some((matched, unmatched)) => {
            let entries = keep_keyed(resolved, &matched);
            Some(Selection { entries, matched, unmatched })
        },
        None => None,
    }
}

/// The line `ls` prints for one resolved entry.
pub open spec fn entry_line(e: ResolvedView) -> Seq<char> {
    "    - "@ + e.key + ": "@ + e.directory
}

/// What `ls` prints for one config: its name, its root if it has one, its
/// window count, and a line per resolved entry.
pub open spec fn config_listing_spec(
    name: Seq<char>,
    root: Option<Seq<char>>,
    windows: u32,
    es: Seq<ResolvedView>,
) -> Seq<Seq<char>> {
    seq![name + ":"@] + match root {
        Some(r) => seq!["  root: "@ + r],
        None => Seq::<Seq<char>>::empty(),
    } + seq!["  windows: "@ + decimal(windows as nat), "  entries:"@] + es.map_values(
        |e: ResolvedView| entry_line(e),
    )
}

/// The lines `ls` prints for config `name` with the given resolved entries.
pub fn config_listing(name: &str, config: &Config, resolved: &[ResolvedEntry]) -> (r: Vec<String>)
    ensures
        views(r@) == config_listing_spec(
            name@,
            opt_string_view(config.root),
            config.windows,
            resolved_views(resolved@),
        ),
{
    let mut r: Vec<String> = Vec::new();
    r.push(concat2(name, ":"));
    match &config.root {
        Some(root) => {
            r.push(concat2("  root: ", root.as_str()));
        },
        None => {},
    }
    let count = decimal_string(config.windows as usize);
    r.push(concat2("  windows: ", count.as_str()));
    r.push(owned("  entries:"));
    let ghost head = views(r@);
    let ghost es = resolved_views(resolved@);
    assert(head =~= seq![name@ + ":"@] + match opt_string_view(config.root) {
        Some(rt) => seq!["  root: "@ + rt],
        None => Seq::<Seq<char>>::empty(),
    } + seq!["  windows: "@ + decimal(config.windows as nat), "  entries:"@]);
    let mut i: usize = 0;
    while i < resolved.len()
        invariant
            i <= resolved.len(),
            es == resolved_views(resolved@),
            views(r@) == head + es.map_values(|e: ResolvedView| entry_line(e)).take(i as int),
        decreases resolved.len() - i,
    {
        let head_part = concat3("    - ", resolved[i].key.as_str(), ": ");
        let line = concat2(head_part.as_str(), resolved[i].directory.as_str());
        let ghost before = views(r@);
        r.push(line);
        assert(views(r@) =~= before.push(entry_line(es[i as int])));
        assert(es.map_values(|e: ResolvedView| entry_line(e)).take(i + 1) =~= es.map_values(
            |e: ResolvedView| entry_line(e),
        ).take(i as int).push(entry_line(es[i as int])));
        i = i + 1;
    }
    assert(es.map_values(|e: ResolvedView| entry_line(e)).take(resolved@.len() as int)
        =~= es.map_values(|e: ResolvedView| entry_line(e)));
    r
}

/// The line `ls` prints for one config of the store.
pub open spec fn config_count_line(name: Seq<char>, c: Config) -> Seq<char> {
    "  "@ + name + " ("@ + decimal(entry_items(c.entries).len()) + " entries)"@
}

/// What `ls` prints without a config name: `no configs` for an empty store,
/// otherwise a heading and a line per config with its number of entries.
pub open spec fn store_listing_spec(items: Seq<(Seq<char>, Config)>) -> Seq<Seq<char>> {
    if items.len() == 0 {
        seq!["no configs"@]
    } else {
        seq!["configs:"@] + items.map_values(|p: (Seq<char>, Config)| config_count_line(p.0, p.1))
    }
}

/// The lines `ls` prints for the whole store.
pub fn store_listing(store: &Store) -> (r: Vec<String>)
    ensures
        views(r@) == store_listing_spec(config_items(store.configs)),
{
    let n = config_map_len(&store.configs);
    let mut r: Vec<String> = Vec::new();
    if n == 0 {
        r.push(owned("no configs"));
        assert(views(r@) =~= seq!["no configs"@]);
        return r;
    }
    r.push(owned("configs:"));
    let ghost items = config_items(store.configs);
    let ghost lines = items.map_values(|p: (Seq<char>, Config)| config_count_line(p.0, p.1));
    let mut i: usize = 0;
    while i < n
        invariant
            n == items.len(),
            items == config_items(store.configs),
            lines == items.map_values(|p: (Seq<char>, Config)| config_count_line(p.0, p.1)),
            i <= n,
            views(r@) == seq!["configs:"@] + lines.take(i as int),
        decreases n - i,
    {
        match config_map_get_index(&store.configs, i) {
            Some((name, config)) => {
                let count = decimal_string(entry_map_len(&config.entries));
                let head_part = concat3("  ", name.as_str(), " (");
                let line = concat3(head_part.as_str(), count.as_str(), " entries)");
                let ghost before = views(r@);
                r.push(line);
                assert(line@ == lines[i as int]);
                assert(views(r@) =~= before.push(lines[i as int]));
                assert(lines.take(i + 1) =~= lines.take(i as int).push(lines[i as int]));
            },
            None => {
                assert(false);
            },
        }
        i = i + 1;
    }
    assert(lines.take(n as int) =~= lines);
    r
}

} // verus!
