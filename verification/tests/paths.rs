use tmux_manager::error::Error;
use tmux_manager::paths::{expand_config_root, expand_path, expand_path_in, home_dir, is_absolute, join};

#[test]
fn expand_tilde_alone() {
    let home = home_dir().unwrap();
    assert_eq!(expand_path("~", None).unwrap(), home);
}

#[test]
fn expand_tilde_prefix() {
    let home = home_dir().unwrap();
    assert_eq!(
        expand_path("~/developer/foo", None).unwrap(),
        join(&home, "developer/foo")
    );
}

#[test]
fn expand_absolute_unchanged() {
    assert_eq!(expand_path("/tmp/abs", None).unwrap(), "/tmp/abs");
}

#[test]
fn expand_relative_uses_base() {
    assert_eq!(
        expand_path("apps/web", Some("/proj")).unwrap(),
        "/proj/apps/web"
    );
}

#[test]
fn expand_relative_without_base_uses_home() {
    let home = home_dir().unwrap();
    assert_eq!(
        expand_path("developer/foo", None).unwrap(),
        join(&home, "developer/foo")
    );
}

#[test]
fn expand_with_given_home() {
    assert_eq!(expand_path_in("~", None, Some("/home/u")).unwrap(), "/home/u");
    assert_eq!(expand_path_in("~/a/b", None, Some("/home/u")).unwrap(), "/home/u/a/b");
    assert_eq!(expand_path_in("a/b", None, Some("/home/u")).unwrap(), "/home/u/a/b");
    assert_eq!(expand_path_in("a", Some("/base/"), None).unwrap(), "/base/a");
    assert_eq!(expand_path_in("~", None, None), Err(Error::HomeNotFound));
    assert_eq!(expand_path_in("rel", None, None), Err(Error::HomeNotFound));
    assert_eq!(expand_config_root("/abs/root").unwrap(), "/abs/root");
}

#[test]
fn join_follows_path_push() {
    assert_eq!(join("/proj", "apps/web"), "/proj/apps/web");
    assert_eq!(join("/proj/", "apps"), "/proj/apps");
    assert_eq!(join("", "apps"), "apps");
    assert_eq!(join("/proj", "/abs"), "/abs");
    assert!(is_absolute("/x"));
    assert!(!is_absolute("x/y"));
}
