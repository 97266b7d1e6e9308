use indexmap::IndexMap;
use tmux_manager::error::Error;
use tmux_manager::migrate::{
    convert_legacy_in, default_legacy_windows, find_legacy_config, legacy_config_candidates,
    legacy_config_path, merge_stores_in, migration_store_in, missing_legacy_message,
    normalize_config_paths_in, strip_config_prefix, LegacyConfig, LegacyEntry, LegacyStore,
};
use tmux_manager::model::{Config, Entry, Store};

fn legacy_entry(name: &str, dir: &str) -> LegacyEntry {
    LegacyEntry { entry_name: name.into(), directory: dir.into() }
}

fn legacy_demo(windows: u32) -> LegacyStore {
    LegacyStore {
        configs: vec![(
            "demo".to_string(),
            LegacyConfig {
                entries: vec![
                    legacy_entry("demo/root", "/tmp/demo"),
                    legacy_entry("demo/web", "/tmp/demo/apps/web"),
                ],
                windows,
                worktree_parent: None,
                worktree_prefix: None,
            },
        )],
    }
}

fn other_store() -> Store {
    let mut store = Store { configs: IndexMap::new() };
    let mut other = Config::new(Some("/tmp/other".into()), 1);
    other.entries.insert("root".into(), Entry::from_dir(".".into()));
    store.configs.insert("other".into(), other);
    store
}

#[test]
fn convert_legacy_roots_config_at_common_prefix() {
    let store = convert_legacy_in(&legacy_demo(2), Some("/home/u"));
    let config = &store.configs["demo"];
    assert_eq!(config.root.as_deref(), Some("/tmp/demo"));
    assert_eq!(config.windows, 2);
    assert_eq!(config.entries.get("root").unwrap().dir(), ".");
    assert_eq!(config.entries.get("web").unwrap().dir(), "apps/web");
    let keys: Vec<&String> = config.entries.keys().collect();
    assert_eq!(keys, vec!["root", "web"]);
}

#[test]
fn legacy_default_window_count_is_two() {
    assert_eq!(default_legacy_windows(), 2);
    let store = convert_legacy_in(&legacy_demo(default_legacy_windows()), None);
    assert_eq!(store.configs["demo"].windows, 2);
}

#[test]
fn migration_merges_into_existing_store() {
    let incoming = convert_legacy_in(&legacy_demo(3), None);
    let (store, merged) =
        migration_store_in(incoming, Some(other_store()), false, None).unwrap();
    assert_eq!(merged, Some(1));
    assert!(store.configs.contains_key("other"));
    assert_eq!(store.configs["demo"].windows, 3);
}

#[test]
fn migration_force_replaces_store() {
    let incoming = convert_legacy_in(&legacy_demo(1), None);
    let (store, merged) =
        migration_store_in(incoming, Some(other_store()), true, None).unwrap();
    assert_eq!(merged, None);
    assert!(!store.configs.contains_key("other"));
    assert!(store.configs.contains_key("demo"));
}

#[test]
fn migration_without_target_writes_converted_store() {
    let incoming = convert_legacy_in(&legacy_demo(2), None);
    let (store, merged) = migration_store_in(incoming, None, false, None).unwrap();
    assert_eq!(merged, None);
    assert_eq!(store.configs.len(), 1);
}

#[test]
fn migration_rejects_empty_legacy_store() {
    let incoming = convert_legacy_in(&LegacyStore { configs: vec![] }, None);
    let err = migration_store_in(incoming, None, false, None).unwrap_err();
    assert_eq!(err, Error::LegacyHasNoProjects);
    assert!(err.message().contains("no projects"));
}

#[test]
fn merge_overwrites_matching_config_and_keeps_others() {
    let mut existing = other_store();
    let mut old_demo = Config::new(Some("/old".into()), 7);
    old_demo.worktree_parent = Some("keep".into());
    old_demo.entries.insert("stale".into(), Entry::from_dir("x".into()));
    existing.configs.insert("demo".into(), old_demo);

    let incoming = convert_legacy_in(&legacy_demo(4), None);
    let n = merge_stores_in(&mut existing, incoming, None);
    assert_eq!(n, 1);
    let keys: Vec<&String> = existing.configs.keys().collect();
    assert_eq!(keys, vec!["other", "demo"]);
    let demo = &existing.configs["demo"];
    assert_eq!(demo.windows, 4);
    assert_eq!(demo.root.as_deref(), Some("/tmp/demo"));
    assert_eq!(demo.worktree_parent.as_deref(), Some("keep"));
    assert!(demo.entries.get("stale").is_none());
    assert_eq!(demo.entries.len(), 2);
    assert_eq!(existing.configs["other"].windows, 1);
}

#[test]
fn normalize_relativizes_absolute_entries() {
    let mut config = Config::new(Some("~/proj".into()), 2);
    config.entries.insert("a".into(), Entry::from_dir("/home/u/proj/a".into()));
    config.entries.insert("b".into(), Entry::from_dir("rel".into()));
    config.entries.insert("c".into(), Entry::from_dir("/elsewhere".into()));
    normalize_config_paths_in(&mut config, Some("/home/u"));
    assert_eq!(config.entries["a"], Entry::Simple("a".into()));
    assert_eq!(config.entries["b"], Entry::Simple("rel".into()));
    assert_eq!(config.entries["c"], Entry::Simple("/elsewhere".into()));
}

#[test]
fn entry_names_lose_config_prefix() {
    assert_eq!(strip_config_prefix("demo", "demo/web"), "web");
    assert_eq!(strip_config_prefix("demo", "other/web"), "other/web");
    assert_eq!(strip_config_prefix("demo", "demoweb"), "demoweb");
}

#[test]
fn legacy_candidates_and_lookup() {
    let candidates = legacy_config_candidates("/cfg", Some("/home/u"));
    assert_eq!(
        candidates,
        vec![
            "/cfg/tmux-manager-nodejs/config.json".to_string(),
            "/home/u/Library/Preferences/tmux-manager-nodejs/config.json".to_string(),
        ]
    );
    assert_eq!(
        find_legacy_config(&candidates, &[false, true]),
        Some(candidates[1].clone())
    );
    assert_eq!(find_legacy_config(&candidates, &[false, false]), None);
    assert_eq!(
        legacy_config_path(None, &candidates),
        "/cfg/tmux-manager-nodejs/config.json"
    );
    assert_eq!(
        missing_legacy_message(&candidates[..1]),
        "no legacy tmux-manager JSON config found (searched: /cfg/tmux-manager-nodejs/config.json)"
    );
}

#[test]
fn merge_with_absolute_roots_needs_no_home() {
    let mut existing = other_store();
    let incoming = convert_legacy_in(&legacy_demo(2), None);
    let n = tmux_manager::migrate::merge_stores(&mut existing, incoming);
    assert_eq!(n, 1);
    assert_eq!(existing.configs.len(), 2);
    assert_eq!(existing.configs["demo"].entries["web"], Entry::Simple("apps/web".into()));
}

#[test]
fn normalize_with_absolute_root() {
    let mut config = Config::new(Some("/proj".into()), 2);
    config.entries.insert("a".into(), Entry::from_dir("/proj/a".into()));
    config.entries.insert("b".into(), Entry::from_dir("b".into()));
    tmux_manager::migrate::normalize_config_paths(&mut config);
    assert_eq!(config.entries["a"], Entry::Simple("a".into()));
    assert_eq!(config.entries["b"], Entry::Simple("b".into()));
    let mut rootless = Config::new(None, 2);
    rootless.entries.insert("a".into(), Entry::from_dir("/x/a".into()));
    tmux_manager::migrate::normalize_config_paths(&mut rootless);
    assert_eq!(rootless.entries["a"], Entry::Simple("/x/a".into()));
}
