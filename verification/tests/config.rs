use indexmap::IndexMap;
use tmux_manager::completions::config_name_candidates;
use tmux_manager::config::{
    add_entry, add_entry_in, config_dir, config_path, create_config, delete_config, get_config,
    remove_entry, user_config_base,
};
use tmux_manager::error::Error;
use tmux_manager::model::{Config, Entry, EntryOptions, Store, WindowsSpec};

fn store_with(name: &str, root: Option<&str>) -> Store {
    let mut store = Store { configs: IndexMap::new() };
    let mut config = Config::new(root.map(|r| r.to_string()), 2);
    config.entries.insert("root".into(), Entry::from_dir(".".into()));
    store.configs.insert(name.into(), config);
    store
}

#[test]
fn config_name_candidates_reads_store() {
    let store = store_with("demo", Some("/tmp/demo"));
    let names = config_name_candidates(Some(&store));
    assert_eq!(names, vec!["demo".to_string()]);
}

#[test]
fn config_name_candidates_keep_store_order() {
    let mut store = store_with("kuib-ai", Some("/tmp/kuib"));
    store.configs.insert("alpha".into(), Config::new(None, 1));
    assert_eq!(
        config_name_candidates(Some(&store)),
        vec!["kuib-ai".to_string(), "alpha".to_string()]
    );
    assert!(config_name_candidates(None).is_empty());
}

#[test]
fn config_location_follows_xdg() {
    assert_eq!(user_config_base(Some("/x"), Some("/platform")), "/x");
    assert_eq!(user_config_base(Some(""), Some("/platform")), "/platform");
    assert_eq!(user_config_base(None, None), ".config");
    assert_eq!(config_dir("/x"), "/x/tmux-manager");
    assert_eq!(config_path("/x"), "/x/tmux-manager/config.toml");
}

#[test]
fn get_config_finds_or_reports() {
    let store = store_with("demo", Some("/tmp/demo"));
    assert_eq!(get_config(&store, "demo").unwrap().root.as_deref(), Some("/tmp/demo"));
    let err = get_config(&store, "nope").unwrap_err();
    assert_eq!(err, Error::ConfigNotFound("nope".into()));
    assert_eq!(err.message(), "config 'nope' not found");
}

#[test]
fn create_then_delete_config() {
    let mut store = store_with("demo", None);
    create_config(&mut store, "new", Some("/r".into()), 3, Some("wt".into()), None).unwrap();
    assert_eq!(store.configs.len(), 2);
    let created = &store.configs["new"];
    assert_eq!(created.root.as_deref(), Some("/r"));
    assert_eq!(created.windows, 3);
    assert_eq!(created.worktree_parent.as_deref(), Some("wt"));
    assert!(created.entries.is_empty());

    let err = create_config(&mut store, "new", None, 1, None, None).unwrap_err();
    assert_eq!(err.message(), "config 'new' already exists");
    assert_eq!(store.configs["new"].windows, 3);

    delete_config(&mut store, "new").unwrap();
    assert_eq!(store.configs.len(), 1);
    assert!(store.configs.contains_key("demo"));
    let err = delete_config(&mut store, "new").unwrap_err();
    assert_eq!(err, Error::ConfigNotFound("new".into()));
}

#[test]
fn add_entry_relativizes_under_root() {
    let mut store = store_with("demo", Some("/proj"));
    add_entry_in(&mut store, "demo", "web", "/proj/apps/web".into(), None, None, Some("/home/u"))
        .unwrap();
    add_entry_in(&mut store, "demo", "rel", "lib".into(), None, None, Some("/home/u")).unwrap();
    add_entry_in(
        &mut store,
        "demo",
        "outside",
        "~/elsewhere".into(),
        Some(3),
        Some("make".into()),
        Some("/home/u"),
    )
    .unwrap();
    let entries = &store.configs["demo"].entries;
    assert_eq!(entries.len(), 4);
    assert_eq!(entries["web"], Entry::Simple("apps/web".into()));
    assert_eq!(entries["rel"], Entry::Simple("lib".into()));
    assert_eq!(
        entries["outside"],
        Entry::Detailed(EntryOptions {
            dir: "/home/u/elsewhere".into(),
            windows: Some(WindowsSpec::Count(3)),
            cmd: Some("make".into()),
        })
    );
    let keys: Vec<&String> = entries.keys().collect();
    assert_eq!(keys, vec!["root", "web", "rel", "outside"]);
}

#[test]
fn add_entry_root_directory_becomes_dot() {
    let mut store = store_with("demo", Some("/proj"));
    add_entry(&mut store, "demo", "top", "/proj".into(), None, None).unwrap();
    assert_eq!(store.configs["demo"].entries["top"], Entry::Simple(".".into()));
}

#[test]
fn add_entry_errors_change_nothing() {
    let mut store = store_with("demo", None);
    let err = add_entry(&mut store, "missing", "k", "/a".into(), None, None).unwrap_err();
    assert_eq!(err, Error::ConfigNotFound("missing".into()));
    let err = add_entry(&mut store, "demo", "root", "/a".into(), None, None).unwrap_err();
    assert_eq!(err.message(), "entry 'root' already exists in config 'demo'");
    let err = add_entry(&mut store, "demo", "k", "rel/dir".into(), None, None).unwrap_err();
    assert_eq!(err, Error::RootlessNeedsAbsolute("demo".into()));
    assert_eq!(err.message(), "config 'demo' has no root; use an absolute directory");
    assert_eq!(store.configs["demo"].entries.len(), 1);
    add_entry(&mut store, "demo", "k", "/abs/dir".into(), None, None).unwrap();
    assert_eq!(store.configs["demo"].entries["k"], Entry::Simple("/abs/dir".into()));
}

#[test]
fn add_then_remove_entry_restores_entries() {
    let mut store = store_with("demo", Some("/proj"));
    add_entry_in(&mut store, "demo", "web", "apps/web".into(), None, None, None).unwrap();
    assert_eq!(store.configs["demo"].entries.len(), 2);
    remove_entry(&mut store, "demo", "web").unwrap();
    let entries = &store.configs["demo"].entries;
    assert_eq!(entries.len(), 1);
    assert_eq!(entries["root"], Entry::Simple(".".into()));
}

#[test]
fn remove_entry_reports_missing() {
    let mut store = store_with("demo", Some("/proj"));
    let err = remove_entry(&mut store, "demo", "nope").unwrap_err();
    assert_eq!(err.message(), "entry 'nope' not found in config 'demo'");
    let err = remove_entry(&mut store, "other", "root").unwrap_err();
    assert_eq!(err, Error::ConfigNotFound("other".into()));
    assert_eq!(store.configs["demo"].entries.len(), 1);
}
