use tmux_manager::error::Error;
use tmux_manager::model::{
    common_path_prefix, relativize_dir, resolve_entry_dir, Config, Entry, EntryOptions,
    WindowsSpec,
};

#[test]
fn resolve_dot_entry_uses_root_without_suffix() {
    let dir = resolve_entry_dir(Some("/home/rs10/developer/kuib-ai"), ".").unwrap();
    assert_eq!(dir, "/home/rs10/developer/kuib-ai");
}

#[test]
fn resolve_relative_entry_joins_root() {
    let dir = resolve_entry_dir(Some("/home/rs10/developer/kuib-ai"), "kuib/apps/tui").unwrap();
    assert_eq!(dir, "/home/rs10/developer/kuib-ai/kuib/apps/tui");
}

#[test]
fn session_name_includes_config_prefix() {
    let mut config = Config::new(Some("/home/rs10/developer/kuib-ai".to_string()), 2);
    config
        .entries
        .insert("kuib/tui".into(), Entry::from_dir("kuib/apps/tui".into()));

    let resolved = config.resolve_entries("kuib-ai").unwrap();
    assert_eq!(resolved[0].session_name, "kuib-ai/kuib/tui");
    assert_eq!(
        resolved[0].directory,
        "/home/rs10/developer/kuib-ai/kuib/apps/tui"
    );
}

#[test]
fn resolve_absolute_entry_ignores_root() {
    let dir = resolve_entry_dir(Some("/proj"), "/elsewhere/app").unwrap();
    assert_eq!(dir, "/elsewhere/app");
    let dir = resolve_entry_dir(None, "/elsewhere/app").unwrap();
    assert_eq!(dir, "/elsewhere/app");
}

#[test]
fn resolve_relative_entry_without_root_fails() {
    let err = resolve_entry_dir(None, "apps/web").unwrap_err();
    assert_eq!(err, Error::EntryNeedsRoot("apps/web".to_string()));
    assert_eq!(err.message(), "entry 'apps/web' requires a root directory");
}

#[test]
fn rootless_config_cannot_resolve() {
    let mut config = Config::new(None, 2);
    config.entries.insert("web".into(), Entry::from_dir("/abs/web".into()));
    let err = config.resolve_entries("demo").unwrap_err();
    assert_eq!(err, Error::ConfigHasNoRoot("demo".to_string()));
    assert_eq!(err.message(), "config 'demo' has no root");
}

#[test]
fn resolution_keeps_entry_order_and_settings() {
    let mut config = Config::new(Some("/proj".to_string()), 3);
    config.entries.insert("b".into(), Entry::from_dir("apps/b".into()));
    config.entries.insert(
        "a.dot".into(),
        Entry::Detailed(EntryOptions {
            dir: "apps/a".into(),
            windows: Some(WindowsSpec::Count(5)),
            cmd: Some("make run".into()),
        }),
    );
    let resolved = config.resolve_entries("cfg").unwrap();
    assert_eq!(resolved.len(), 2);
    assert_eq!(resolved[0].key, "b");
    assert_eq!(resolved[0].session_name, "cfg/b");
    assert_eq!(resolved[0].directory, "/proj/apps/b");
    assert_eq!(resolved[0].windows, WindowsSpec::Count(3));
    assert_eq!(resolved[0].cmd, None);
    assert_eq!(resolved[1].key, "a.dot");
    assert_eq!(resolved[1].session_name, "cfg/a.dot");
    assert_eq!(resolved[1].directory, "/proj/apps/a");
    assert_eq!(resolved[1].windows, WindowsSpec::Count(5));
    assert_eq!(resolved[1].cmd.as_deref(), Some("make run"));
}

#[test]
fn entry_accessors_read_both_forms() {
    let simple = Entry::from_dir("apps/web".into());
    assert_eq!(simple.dir(), "apps/web");
    assert_eq!(simple.windows(), None);
    assert_eq!(simple.cmd(), None);
    let detailed = Entry::Detailed(EntryOptions {
        dir: "apps/api".into(),
        windows: Some(WindowsSpec::Count(2)),
        cmd: Some("cargo run".into()),
    });
    assert_eq!(detailed.dir(), "apps/api");
    assert_eq!(detailed.windows(), Some(WindowsSpec::Count(2)));
    assert_eq!(detailed.cmd(), Some("cargo run"));
}

#[test]
fn relativize_inside_and_outside_root() {
    assert_eq!(relativize_dir("/proj", "/proj/apps/web"), "apps/web");
    assert_eq!(relativize_dir("/proj", "/proj"), ".");
    assert_eq!(relativize_dir("/proj", "/other/place"), "/other/place");
}

#[test]
fn common_prefix_of_paths() {
    let paths = vec!["/a/b/c".to_string(), "/a/b/d".to_string(), "/a/x".to_string()];
    assert_eq!(common_path_prefix(&paths), Some("/a".to_string()));
    let none: Vec<String> = Vec::new();
    assert_eq!(common_path_prefix(&none), None);
    let one = vec!["/a/b".to_string()];
    assert_eq!(common_path_prefix(&one), Some("/a/b".to_string()));
}

#[test]
fn relativized_dir_resolves_back() {
    let rel = relativize_dir("/proj", "/proj/apps/web");
    assert_eq!(resolve_entry_dir(Some("/proj"), &rel).unwrap(), "/proj/apps/web");
    let same = relativize_dir("/proj", "/proj/");
    assert_eq!(same, ".");
    assert_eq!(resolve_entry_dir(Some("/proj"), &same).unwrap(), "/proj");
    let outside = relativize_dir("/proj", "/srv/data");
    assert_eq!(resolve_entry_dir(Some("/proj"), &outside).unwrap(), "/srv/data");
}

#[test]
fn common_prefix_is_shared_and_longest() {
    let paths = vec!["/a/b/c".to_string(), "/a/b".to_string(), "/a/b/d/e".to_string()];
    assert_eq!(common_path_prefix(&paths), Some("/a/b".to_string()));
    let none_shared = vec!["a/b".to_string(), "c/d".to_string()];
    assert_eq!(common_path_prefix(&none_shared), None);
    let mixed = vec!["/a".to_string(), "a".to_string()];
    assert_eq!(common_path_prefix(&mixed), None);
}

#[test]
fn common_prefix_ignores_order_and_repeats() {
    let a = vec!["/x/y/z".to_string(), "/x/y//w/".to_string()];
    let b = vec!["/x/y//w/".to_string(), "/x/y/z".to_string(), "/x/y/z".to_string()];
    assert_eq!(common_path_prefix(&a), Some("/x/y".to_string()));
    assert_eq!(common_path_prefix(&a), common_path_prefix(&b));
}

#[test]
fn relativized_dot_remainder_resolves_to_root() {
    let rel = relativize_dir("/proj", "/proj/.");
    assert_eq!(resolve_entry_dir(Some("/proj"), &rel).unwrap(), "/proj");
}
