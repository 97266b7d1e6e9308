use tmux_manager::model::{PaneSpec, ResolvedEntry, SplitDirection, WindowSpec, WindowsSpec};
use tmux_manager::tmux::{plan_kill_sessions, plan_start_sessions, session_names, TmuxBackend};

fn entry(session_name: &str, windows: WindowsSpec, cmd: Option<&str>) -> ResolvedEntry {
    ResolvedEntry {
        key: "root".into(),
        session_name: session_name.into(),
        directory: "/tmp/work".into(),
        windows,
        cmd: cmd.map(|c| c.to_string()),
    }
}

#[test]
fn start_args_chain_windows_with_semicolon_tokens() {
    let entry = ResolvedEntry {
        key: "root".into(),
        session_name: "cfg/root".into(),
        directory: "/tmp/work".into(),
        windows: WindowsSpec::Count(2),
        cmd: None,
    };

    let args = TmuxBackend::build_start_args("cfg/root", &entry);
    assert_eq!(
        args,
        vec![
            "new-session",
            "-d",
            "-s",
            "cfg/root",
            "-c",
            "/tmp/work",
            ";",
            "new-window",
            "-t",
            "cfg/root",
            "-c",
            "/tmp/work",
        ]
    );
}

#[test]
fn start_args_builds_panes_correctly() {
    let entry = ResolvedEntry {
        key: "root".into(),
        session_name: "cfg/root".into(),
        directory: "/tmp/work".into(),
        windows: WindowsSpec::Detailed(vec![
            WindowSpec::Detailed {
                name: Some("editor".into()),
                panes: vec![PaneSpec::Command("nvim".into())],
            },
            WindowSpec::Detailed {
                name: Some("server".into()),
                panes: vec![
                    PaneSpec::Detailed {
                        cmd: Some("npm run dev".into()),
                        dir: None,
                        split: None,
                    },
                    PaneSpec::Detailed {
                        cmd: Some("npm run test".into()),
                        dir: Some("client".into()),
                        split: Some(SplitDirection::Vertical),
                    },
                ],
            },
        ]),
        cmd: None,
    };

    let args = TmuxBackend::build_start_args("cfg/root", &entry);
    assert_eq!(
        args,
        vec![
            "new-session",
            "-d",
            "-s",
            "cfg/root",
            "-c",
            "/tmp/work",
            ";",
            "rename-window",
            "-t",
            "cfg/root:0",
            "editor",
            ";",
            "send-keys",
            "-t",
            "cfg/root:0",
            "nvim",
            "Enter",
            ";",
            "new-window",
            "-t",
            "cfg/root",
            "-c",
            "/tmp/work",
            "-n",
            "server",
            ";",
            "send-keys",
            "-t",
            "cfg/root:1",
            "npm run dev",
            "Enter",
            ";",
            "split-window",
            "-v",
            "-t",
            "cfg/root:1",
            "-c",
            "/tmp/work/client",
            ";",
            "send-keys",
            "-t",
            "cfg/root:1",
            "npm run test",
            "Enter",
        ]
    );
}

#[test]
fn start_args_window_command_string_matches_single_pane() {
    let from_string = ResolvedEntry {
        key: "root".into(),
        session_name: "cfg/root".into(),
        directory: "/tmp/work".into(),
        windows: WindowsSpec::Detailed(vec![WindowSpec::Command("pnpm dev".into())]),
        cmd: None,
    };
    let from_panes = ResolvedEntry {
        key: "root".into(),
        session_name: "cfg/root".into(),
        directory: "/tmp/work".into(),
        windows: WindowsSpec::Detailed(vec![WindowSpec::Detailed {
            name: None,
            panes: vec![PaneSpec::Command("pnpm dev".into())],
        }]),
        cmd: None,
    };

    assert_eq!(
        TmuxBackend::build_start_args("cfg/root", &from_string),
        TmuxBackend::build_start_args("cfg/root", &from_panes),
    );
}

#[test]
fn start_args_single_window_has_no_extra_commands() {
    let args = TmuxBackend::build_start_args("s", &entry("s", WindowsSpec::Count(1), None));
    assert_eq!(args, vec!["new-session", "-d", "-s", "s", "-c", "/tmp/work"]);
    let args = TmuxBackend::build_start_args("s", &entry("s", WindowsSpec::Count(0), None));
    assert_eq!(args, vec!["new-session", "-d", "-s", "s", "-c", "/tmp/work"]);
}

#[test]
fn start_args_send_entry_command_to_session() {
    let args = TmuxBackend::build_start_args("s", &entry("s", WindowsSpec::Count(1), Some("make")));
    assert_eq!(
        args,
        vec![
            "new-session", "-d", "-s", "s", "-c", "/tmp/work", ";", "send-keys", "-t", "s",
            "make", "Enter"
        ]
    );
}

#[test]
fn start_args_horizontal_split_and_absolute_pane_dir() {
    let e = entry(
        "s",
        WindowsSpec::Detailed(vec![WindowSpec::Detailed {
            name: None,
            panes: vec![
                PaneSpec::Detailed { cmd: None, dir: None, split: None },
                PaneSpec::Detailed {
                    cmd: None,
                    dir: Some("/abs".into()),
                    split: Some(SplitDirection::Horizontal),
                },
                PaneSpec::Detailed { cmd: None, dir: None, split: None },
            ],
        }]),
        None,
    );
    let args = TmuxBackend::build_start_args("s", &e);
    assert_eq!(
        args,
        vec![
            "new-session", "-d", "-s", "s", "-c", "/tmp/work", ";", "split-window", "-h", "-t",
            "s:0", "-c", "/abs", ";", "split-window", "-h", "-t", "s:0", "-c", "/tmp/work"
        ]
    );
}

#[test]
fn server_args_select_socket() {
    let plain = TmuxBackend::default();
    assert_eq!(plain.program_name(), "tmux");
    assert!(plain.server_args().is_empty());
    let sock = TmuxBackend::with_socket("itest");
    assert_eq!(sock.program_name(), "tmux");
    assert_eq!(sock.server_args(), vec!["-L", "itest"]);
}

#[test]
fn start_plan_skips_running_sessions() {
    let entries = vec![
        entry("cfg/a.b", WindowsSpec::Count(1), None),
        entry("cfg/c", WindowsSpec::Count(1), None),
        entry("cfg/d", WindowsSpec::Count(1), None),
    ];
    let existing = vec!["cfg/a_b".to_string()];
    let plan = plan_start_sessions(&entries, &existing);
    assert_eq!(plan.skipped, vec!["cfg/a_b"]);
    assert_eq!(plan.created, vec!["cfg/c", "cfg/d"]);
    assert_eq!(
        plan.args,
        vec![
            "new-session", "-d", "-s", "cfg/c", "-c", "/tmp/work", ";", "new-session", "-d",
            "-s", "cfg/d", "-c", "/tmp/work"
        ]
    );
}

#[test]
fn start_plan_with_everything_running_creates_nothing() {
    let entries = vec![entry("x", WindowsSpec::Count(3), None)];
    let existing = vec!["x".to_string()];
    let plan = plan_start_sessions(&entries, &existing);
    assert_eq!(plan.skipped, vec!["x"]);
    assert!(plan.created.is_empty());
    assert!(plan.args.is_empty());
}

#[test]
fn kill_plan_kills_only_running_sessions() {
    let entries = vec![
        entry("cfg/a.b", WindowsSpec::Count(1), None),
        entry("cfg/c", WindowsSpec::Count(1), None),
        entry("cfg/d", WindowsSpec::Count(1), None),
    ];
    let existing = vec!["cfg/a_b".to_string(), "cfg/d".to_string()];
    let plan = plan_kill_sessions(&entries, &existing);
    assert_eq!(plan.killed, vec!["cfg/a_b", "cfg/d"]);
    assert_eq!(
        plan.args,
        vec!["kill-session", "-t", "cfg/a_b", ";", "kill-session", "-t", "cfg/d"]
    );
    let none = plan_kill_sessions(&entries, &[]);
    assert!(none.killed.is_empty());
    assert!(none.args.is_empty());
}

#[test]
fn session_names_skip_empty_lines() {
    assert_eq!(session_names("a\n\nb/c\n"), vec!["a", "b/c"]);
    assert_eq!(session_names("one\r\ntwo"), vec!["one", "two"]);
    assert!(session_names("").is_empty());
}
