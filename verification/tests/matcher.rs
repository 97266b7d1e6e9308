use tmux_manager::matcher::{
    find_matching_keys, normalize_session_name, resolve_entry_keys, try_find_matching_keys,
    try_resolve_entry_keys,
};

fn strings(items: &[&str]) -> Vec<String> {
    items.iter().map(|s| s.to_string()).collect()
}

#[test]
fn normalize_replaces_dots() {
    assert_eq!(
        normalize_session_name("portfolios/supriyoroy.com/web"),
        "portfolios/supriyoroy_com/web"
    );
}

#[test]
fn glob_matches_supriyoroy_entries() {
    let keys = strings(&[
        "root",
        "supriyoroy.com/root",
        "supriyoroy.com/web",
        "rupshadesign_com",
    ]);

    let matched = find_matching_keys("supriyoroy.com/*", &keys);
    assert_eq!(matched.len(), 2);
    assert!(matched.contains(&"supriyoroy.com/root".to_string()));
    assert!(matched.contains(&"supriyoroy.com/web".to_string()));
}

#[test]
fn glob_matches_all_supriyoroy_entries() {
    let keys = strings(&["root", "supriyoroy.com/root", "supriyoroy.com/web"]);

    let matched = find_matching_keys("supriyoroy.com/*", &keys);
    assert_eq!(matched.len(), 2);
}

#[test]
fn underscore_pattern_matches_dotted_keys() {
    let keys = strings(&["supriyoroy.com/web"]);
    assert_eq!(
        find_matching_keys("supriyoroy_com/web", &keys),
        vec!["supriyoroy.com/web".to_string()]
    );
}

#[test]
fn dot_and_underscore_are_equivalent() {
    let keys = strings(&["supriyoroy.com/web"]);
    assert_eq!(
        find_matching_keys("supriyoroy_com/web", &keys),
        vec!["supriyoroy.com/web".to_string()]
    );
}

#[test]
fn fuzzy_matches_single_entry() {
    let keys = strings(&["root", "supriyoroy.com/web", "supriyoroy.com/types"]);

    assert_eq!(
        find_matching_keys("web", &keys),
        vec!["supriyoroy.com/web".to_string()]
    );
}

#[test]
fn resolve_dedupes_across_patterns() {
    let keys = strings(&["a", "b", "c"]);
    let (matched, unmatched) = resolve_entry_keys(&strings(&["a", "b"]), &keys);
    assert_eq!(matched, vec!["a", "b"]);
    assert!(unmatched.is_empty());
}

#[test]
fn resolve_reports_each_key_once_and_unmatched_patterns() {
    let keys = strings(&["api", "web", "docs"]);
    let (matched, unmatched) =
        resolve_entry_keys(&strings(&["*", "web", "zzz"]), &keys);
    assert_eq!(matched, vec!["api", "web", "docs"]);
    assert_eq!(unmatched, vec!["zzz"]);
}

#[test]
fn glob_is_case_insensitive_and_anchored() {
    let keys = strings(&["Web", "web-api", "theweb"]);
    assert_eq!(find_matching_keys("WEB", &keys), vec!["Web".to_string()]);
    assert_eq!(
        find_matching_keys("web*", &keys),
        vec!["Web".to_string(), "web-api".to_string()]
    );
    assert_eq!(
        find_matching_keys("?eb*", &keys),
        vec!["Web".to_string(), "web-api".to_string()]
    );
    assert!(find_matching_keys("?eb", &keys).is_empty());
}

#[test]
fn glob_escapes_regex_characters() {
    let keys = strings(&["a+b", "aab", "a.b/x"]);
    assert_eq!(find_matching_keys("a+*", &keys), vec!["a+b".to_string()]);
    assert_eq!(find_matching_keys("a_b/*", &keys), vec!["a.b/x".to_string()]);
}

#[test]
fn fuzzy_prefers_exact_then_prefix_then_substring() {
    let keys = strings(&["frontend-app", "app", "myapp"]);
    assert_eq!(find_matching_keys("app", &keys), vec!["app".to_string()]);
    let keys = strings(&["myapp", "apps"]);
    assert_eq!(find_matching_keys("app", &keys), vec!["apps".to_string()]);
    let keys = strings(&["xyz", "my-app-long", "myapp"]);
    assert_eq!(find_matching_keys("app", &keys), vec!["myapp".to_string()]);
}

#[test]
fn fuzzy_subsequence_and_no_match() {
    let keys = strings(&["frontend", "backend"]);
    assert_eq!(find_matching_keys("fnd", &keys), vec!["frontend".to_string()]);
    assert!(find_matching_keys("qqq", &keys).is_empty());
}

#[test]
fn fuzzy_ties_keep_the_first_candidate() {
    let keys = strings(&["abx", "aby"]);
    assert_eq!(find_matching_keys("ab", &keys), vec!["abx".to_string()]);
}

#[test]
fn checked_selection_agrees_when_defined() {
    let keys = strings(&["supriyoroy.com/web", "root"]);
    assert_eq!(
        try_find_matching_keys("supriyoroy.com/*", &keys),
        Some(vec!["supriyoroy.com/web".to_string()])
    );
    assert_eq!(
        try_resolve_entry_keys(&strings(&["root", "nope"]), &keys),
        Some((vec!["root".to_string()], vec!["nope".to_string()]))
    );
}

#[test]
fn exact_match_beats_prefix_and_case() {
    let keys = strings(&["website", "web-api", "WEB", "web"]);
    assert_eq!(find_matching_keys("web", &keys), vec!["WEB".to_string()]);
    assert_eq!(find_matching_keys("we.b", &strings(&["we_b", "web"])), vec!["we_b".to_string()]);
}
