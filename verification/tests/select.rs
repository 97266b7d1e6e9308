use indexmap::IndexMap;
use tmux_manager::model::{Config, Entry, ResolvedEntry, Store, WindowsSpec};
use tmux_manager::select::{config_listing, select_entries, store_listing};

fn resolved(key: &str, dir: &str) -> ResolvedEntry {
    ResolvedEntry {
        key: key.into(),
        session_name: format!("cfg/{key}"),
        directory: dir.into(),
        windows: WindowsSpec::Count(2),
        cmd: None,
    }
}

fn sample() -> Vec<ResolvedEntry> {
    vec![
        resolved("root", "/p"),
        resolved("supriyoroy.com/root", "/p/s"),
        resolved("supriyoroy.com/web", "/p/s/web"),
        resolved("docs", "/p/docs"),
    ]
}

fn keys(entries: &[ResolvedEntry]) -> Vec<&str> {
    entries.iter().map(|e| e.key.as_str()).collect()
}

#[test]
fn no_patterns_select_everything() {
    let selection = select_entries(sample(), &[]).unwrap();
    assert_eq!(
        keys(&selection.entries),
        vec!["root", "supriyoroy.com/root", "supriyoroy.com/web", "docs"]
    );
    assert!(selection.matched.is_empty());
    assert!(selection.unmatched.is_empty());
}

#[test]
fn patterns_select_in_config_order() {
    let patterns = vec!["docs".to_string(), "supriyoroy_com/*".to_string(), "zzz".to_string()];
    let selection = select_entries(sample(), &patterns).unwrap();
    assert_eq!(
        selection.matched,
        vec!["docs", "supriyoroy.com/root", "supriyoroy.com/web"]
    );
    assert_eq!(selection.unmatched, vec!["zzz"]);
    assert_eq!(
        keys(&selection.entries),
        vec!["supriyoroy.com/root", "supriyoroy.com/web", "docs"]
    );
    assert_eq!(selection.entries[2].directory, "/p/docs");
}

#[test]
fn repeated_matches_select_once() {
    let patterns = vec!["supriyoroy.com/*".to_string(), "web".to_string()];
    let selection = select_entries(sample(), &patterns).unwrap();
    assert_eq!(selection.matched, vec!["supriyoroy.com/root", "supriyoroy.com/web"]);
    assert_eq!(selection.entries.len(), 2);
}

#[test]
fn listing_of_one_config() {
    let mut config = Config::new(Some("/p".into()), 3);
    config.entries.insert("root".into(), Entry::from_dir(".".into()));
    let lines = config_listing("demo", &config, &[resolved("root", "/p"), resolved("web", "/p/web")]);
    assert_eq!(
        lines,
        vec![
            "demo:",
            "  root: /p",
            "  windows: 3",
            "  entries:",
            "    - root: /p",
            "    - web: /p/web",
        ]
    );
    let rootless = Config::new(None, 12);
    assert_eq!(
        config_listing("x", &rootless, &[]),
        vec!["x:", "  windows: 12", "  entries:"]
    );
}

#[test]
fn listing_of_the_store() {
    let mut store = Store { configs: IndexMap::new() };
    assert_eq!(store_listing(&store), vec!["no configs"]);
    let mut demo = Config::new(None, 2);
    demo.entries.insert("a".into(), Entry::from_dir("/a".into()));
    demo.entries.insert("b".into(), Entry::from_dir("/b".into()));
    store.configs.insert("demo".into(), demo);
    store.configs.insert("empty".into(), Config::new(None, 2));
    assert_eq!(
        store_listing(&store),
        vec!["configs:", "  demo (2 entries)", "  empty (0 entries)"]
    );
}
