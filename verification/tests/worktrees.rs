use tmux_manager::error::Error;
use tmux_manager::model::{
    Config, Entry, ResolveContext, ResolveOverrides, WindowsSpec, WorktreeOverrides,
};
use tmux_manager::paths::{home_dir, join};

fn figr_config() -> Config {
    let mut config = Config::new(Some("~/developer/figr-ai".to_string()), 2);
    config.worktree_parent = Some(".work/worktrees".to_string());
    config.worktree_prefix = Some("worktree-{name}".into());
    config
        .entries
        .insert("root".into(), Entry::from_dir(".".into()));
    config
        .entries
        .insert("frontend/root".into(), Entry::from_dir("frontend".into()));
    config
}

#[test]
fn worktree_parent_mode_resolves_under_named_dir() {
    let config = figr_config();
    let home = home_dir().unwrap();
    let ctx = ResolveContext {
        config_name: "figr-ai",
        worktree: Some("feat+sr+stream-performance"),
        overrides: ResolveOverrides::default(),
    };
    let resolved = config.resolve_entries_with(&ctx).unwrap();
    let root = resolved.iter().find(|e| e.key == "root").unwrap();
    assert_eq!(
        root.directory,
        join(
            &home,
            "developer/figr-ai/.work/worktrees/feat+sr+stream-performance"
        )
    );
    assert_eq!(
        root.session_name,
        "figr-ai/worktree-feat+sr+stream-performance/root"
    );
}

#[test]
fn worktree_parent_mode_with_given_home() {
    let config = figr_config();
    let ctx = ResolveContext {
        config_name: "figr-ai",
        worktree: Some("feat"),
        overrides: ResolveOverrides::default(),
    };
    let resolved = config.resolve_entries_in(&ctx, Some("/home/u")).unwrap();
    assert_eq!(resolved.len(), 2);
    assert_eq!(
        resolved[0].directory,
        "/home/u/developer/figr-ai/.work/worktrees/feat"
    );
    assert_eq!(
        resolved[1].directory,
        "/home/u/developer/figr-ai/.work/worktrees/feat/frontend"
    );
    assert_eq!(resolved[1].session_name, "figr-ai/worktree-feat/frontend/root");
}

#[test]
fn worktree_direct_root_skips_name_suffix() {
    let mut config = figr_config();
    config.worktrees.insert(
        "feat".into(),
        WorktreeOverrides {
            root: Some("/tmp/checkout".to_string()),
            ..Default::default()
        },
    );
    let ctx = ResolveContext {
        config_name: "figr-ai",
        worktree: Some("feat"),
        overrides: ResolveOverrides::default(),
    };
    let resolved = config.resolve_entries_with(&ctx).unwrap();
    let fe = resolved.iter().find(|e| e.key == "frontend/root").unwrap();
    assert_eq!(fe.directory, "/tmp/checkout/frontend");
}

#[test]
fn cli_worktree_root_overrides_section() {
    let mut config = figr_config();
    config.worktrees.insert(
        "feat".into(),
        WorktreeOverrides {
            root: Some("/old".to_string()),
            ..Default::default()
        },
    );
    let ctx = ResolveContext {
        config_name: "figr-ai",
        worktree: Some("feat"),
        overrides: ResolveOverrides {
            worktree_root: Some("/new".to_string()),
            ..Default::default()
        },
    };
    let resolved = config.resolve_entries_with(&ctx).unwrap();
    let root = resolved.iter().find(|e| e.key == "root").unwrap();
    assert_eq!(root.directory, "/new");
}

#[test]
fn absolute_worktree_parent_appends_name() {
    let mut config = Config::new(Some("/proj".into()), 2);
    config.worktree_parent = Some("/wt-parent".into());
    config
        .entries
        .insert("app".into(), Entry::from_dir(".".into()));

    let ctx = ResolveContext {
        config_name: "p",
        worktree: Some("branch-a"),
        overrides: ResolveOverrides::default(),
    };
    let resolved = config.resolve_entries_with(&ctx).unwrap();
    assert_eq!(resolved[0].directory, "/wt-parent/branch-a");
}

#[test]
fn worktree_section_windows_override() {
    let mut config = Config::new(Some("/proj".into()), 4);
    config.worktree_parent = Some("wt".into());
    config
        .entries
        .insert("x".into(), Entry::from_dir(".".into()));
    config.worktrees.insert(
        "w".into(),
        WorktreeOverrides {
            windows: Some(1),
            ..Default::default()
        },
    );

    let ctx = ResolveContext {
        config_name: "p",
        worktree: Some("w"),
        overrides: ResolveOverrides::default(),
    };
    assert_eq!(
        config.resolve_entries_with(&ctx).unwrap()[0].windows,
        WindowsSpec::Count(1)
    );
}

#[test]
fn cli_overrides_beat_config() {
    let mut config = Config::new(Some("/proj".into()), 2);
    config.worktree_parent = Some("wt".into());
    config.worktree_prefix = Some("wt-{name}".into());
    config
        .entries
        .insert("a".into(), Entry::from_dir(".".into()));

    let ctx = ResolveContext {
        config_name: "p",
        worktree: Some("n"),
        overrides: ResolveOverrides {
            worktree_prefix: Some("custom-{name}".into()),
            windows: Some(9),
            ..Default::default()
        },
    };
    let mut resolved = config.resolve_entries_with(&ctx).unwrap();
    let entry = resolved.pop().unwrap();
    assert_eq!(entry.session_name, "p/custom-n/a");
    assert_eq!(entry.windows, WindowsSpec::Count(9));
}

#[test]
fn worktree_without_parent_is_an_error() {
    let mut config = Config::new(Some("/proj".into()), 2);
    config
        .entries
        .insert("a".into(), Entry::from_dir(".".into()));
    let ctx = ResolveContext {
        config_name: "p",
        worktree: Some("n"),
        overrides: ResolveOverrides::default(),
    };
    let err = config.resolve_entries_with(&ctx).unwrap_err();
    assert_eq!(err, Error::WorktreeNeedsParent("n".to_string()));
    assert_eq!(
        err.message(),
        "worktree 'n' requires worktree_parent in config or --worktrees"
    );
}

#[test]
fn default_prefix_names_worktree_sessions() {
    let mut config = Config::new(Some("/proj".into()), 2);
    config.worktree_parent = Some("wt".into());
    config
        .entries
        .insert("a".into(), Entry::from_dir("sub".into()));
    let ctx = ResolveContext {
        config_name: "p",
        worktree: Some("n"),
        overrides: ResolveOverrides::default(),
    };
    let resolved = config.resolve_entries_with(&ctx).unwrap();
    assert_eq!(resolved[0].session_name, "p/worktree-n/a");
    assert_eq!(resolved[0].directory, "/proj/wt/n/sub");
}

#[test]
fn root_override_replaces_config_root() {
    let mut config = Config::new(Some("/proj".into()), 2);
    config
        .entries
        .insert("a".into(), Entry::from_dir("sub".into()));
    let ctx = ResolveContext {
        config_name: "p",
        worktree: None,
        overrides: ResolveOverrides {
            root: Some("/other".into()),
            ..Default::default()
        },
    };
    let resolved = config.resolve_entries_with(&ctx).unwrap();
    assert_eq!(resolved[0].directory, "/other/sub");
    assert_eq!(resolved[0].session_name, "p/a");
}
