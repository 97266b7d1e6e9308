//! The tmux side: the argument lists that create and kill sessions, and the
//! decisions of which sessions to create or kill given those that exist.
//! Running tmux is left to the caller.
use vstd::prelude::*;

use crate::matcher::{normalize_session_name, normalized};
use crate::model::{resolved_views,
    window_name, window_panes, PaneSpec, PaneView, ResolvedEntry, ResolvedView, SplitDirection,
    window_views, WindowSpec, WindowView, WindowsSpec, WindowsView,
};
use crate::paths::{join, path_join};
use crate::text::{
    chars_eq, chars_of, concat3, decimal, decimal_string, owned, split_on, string_from_chars, views,
};

verus! {

broadcast use vstd::string::group_string_axioms;

/// Something that starts and kills the sessions of resolved entries; a
/// failure is reported as its message.
pub trait Backend {
    fn start_sessions(&self, entries: &[ResolvedEntry], quiet: bool) -> Result<(), String>;

    fn kill_sessions(&self, entries: &[ResolvedEntry]) -> Result<(), String>;
}

/// How to reach tmux: the program, and the socket name if a separate server
/// is used.
#[derive(Debug)]
pub struct TmuxBackend {
    tmux: String,
    socket: Option<String>,
}

impl Default for TmuxBackend {
    fn default() -> (b: Self)
        ensures
            b.program()@ == "tmux"@,
            b.socket_name() is None,
    {
        TmuxBackend { tmux: owned("tmux"), socket: None }
    }
}

impl TmuxBackend {
    pub closed spec fn program(&self) -> String {
        self.tmux
    }

    pub closed spec fn socket_name(&self) -> Option<String> {
        self.socket
    }

    /// A backend that talks to the tmux server on the named socket.
    pub fn with_socket(socket: &str) -> (b: Self)
        ensures
            b.program()@ == "tmux"@,
            b.socket_name() matches Some(s) && s@ == socket@,
    {
        TmuxBackend { tmux: owned("tmux"), socket: Some(owned(socket)) }
    }

    /// The program to run.
    pub fn program_name(&self) -> (r: &str)
        ensures
            r@ == self.program()@,
    {
        self.tmux.as_str()
    }

    /// The arguments that select the server, put before every command:
    /// `-L <socket>` when a socket is set, nothing otherwise.
    pub fn server_args(&self) -> (r: Vec<String>)
        ensures
            views(r@) == match self.socket_name() {
                Some(s) => seq!["-L"@, s@],
                None => Seq::<Seq<char>>::empty(),
            },
    {
        let mut r: Vec<String> = Vec::new();
        match &self.socket {
            Some(s) => {
                push_str(&mut r, "-L");
                push_str(&mut r, s.as_str());
                assert(views(r@) =~= seq!["-L"@, s@]);
            },
            None => {
                assert(views(r@) =~= Seq::<Seq<char>>::empty());
            },
        }
        r
    }

    /// The tmux arguments that create session `session` for `entry`: the
    /// session in the entry's directory, then its windows and panes, then the
    /// entry's command sent to the session. See [`start_args_spec`].
    pub fn build_start_args(session: &str, entry: &ResolvedEntry) -> (args: Vec<String>)
        ensures
            views(args@) == start_args_spec(session@, entry@),
    {
        let dir = entry.directory.as_str();
        let mut args: Vec<String> = Vec::new();
        push_str(&mut args, "new-session");
        push_str(&mut args, "-d");
        push_str(&mut args, "-s");
        push_str(&mut args, session);
        push_str(&mut args, "-c");
        push_str(&mut args, dir);
        assert(views(args@) =~= session_open_args(session@, dir@));
        match &entry.windows {
            WindowsSpec::Count(count) => {
                let mut i: u32 = 1;
                while i < *count
                    invariant
                        1 <= i,
                        i <= *count || i == 1,
                        views(args@) == session_open_args(session@, dir@) + count_windows_args(
                            session@,
                            dir@,
                            i as nat,
                        ),
                    decreases *count - i,
                {
                    let ghost before = views(args@);
                    push_str(&mut args, ";");
                    push_str(&mut args, "new-window");
                    push_str(&mut args, "-t");
                    push_str(&mut args, session);
                    push_str(&mut args, "-c");
                    push_str(&mut args, dir);
                    i = i + 1;
                    assert(views(args@) =~= before + new_window_args(session@, dir@));
                }
                if *count == 0 {
                    assert(i == 1);
                    assert(count_windows_args(session@, dir@, 1) == Seq::<Seq<char>>::empty());
                    assert(count_windows_args(session@, dir@, 0) == Seq::<Seq<char>>::empty());
                }
                assert(count_windows_args(session@, dir@, i as nat) == count_windows_args(
                    session@,
                    dir@,
                    *count as nat,
                ));
            },
            WindowsSpec::Detailed(windows) => {
                let mut w_idx: usize = 0;
                assert(window_views(windows@).take(0) =~= Seq::<WindowView>::empty());
                while w_idx < windows.len()
                    invariant
                        w_idx <= windows.len(),
                        views(args@) == session_open_args(session@, dir@)
                            + detailed_windows_args(
                            session@,
                            dir@,
                            window_views(windows@).take(w_idx as int),
                        ),
                    decreases windows.len() - w_idx,
                {
                    let ghost before = views(args@);
                    push_window_args(&mut args, session, dir, w_idx, &windows[w_idx]);
                    assert(window_views(windows@).take(w_idx + 1).drop_last() =~= window_views(
                        windows@,
                    ).take(w_idx as int));
                    w_idx = w_idx + 1;
                }
                assert(window_views(windows@).take(windows.len() as int) =~= window_views(
                    windows@,
                ));
            },
        }
        let ghost before = views(args@);
        match &entry.cmd {
            Some(cmd) => {
                push_send_keys(&mut args, session, cmd.as_str());
            },
            None => {},
        }
        assert(views(args@) =~= before + send_keys_args(session@, entry@.cmd));
        args
    }
}

fn push_str(args: &mut Vec<String>, s: &str)
    ensures
        views(final(args)@) == views(old(args)@).push(s@),
{
    let ghost before = args@;
    args.push(owned(s));
    assert(views(args@) =~= views(before).push(s@));
}

/// `new-session -d -s <session> -c <dir>`.
pub open spec fn session_open_args(session: Seq<char>, dir: Seq<char>) -> Seq<Seq<char>> {
    seq!["new-session"@, "-d"@, "-s"@, session, "-c"@, dir]
}

/// `; new-window -t <session> -c <dir>`.
pub open spec fn new_window_args(session: Seq<char>, dir: Seq<char>) -> Seq<Seq<char>> {
    seq![";"@, "new-window"@, "-t"@, session, "-c"@, dir]
}

/// The plain windows after the first, for a session of `n` windows.
pub open spec fn count_windows_args(session: Seq<char>, dir: Seq<char>, n: nat) -> Seq<Seq<char>>
    decreases n,
{
    if n <= 1 {
        Seq::empty()
    } else {
        count_windows_args(session, dir, (n - 1) as nat) + new_window_args(session, dir)
    }
}

/// `; send-keys -t <target> <cmd> Enter` when there is a command.
pub open spec fn send_keys_args(target: Seq<char>, cmd: Option<Seq<char>>) -> Seq<Seq<char>> {
    match cmd {
        Some(c) => seq![";"@, "send-keys"@, "-t"@, target, c, "Enter"@],
        None => Seq::empty(),
    }
}

pub open spec fn pane_cmd(p: PaneView) -> Option<Seq<char>> {
    match p {
        PaneView::Command(c) => Some(c),
        PaneView::Detailed { cmd, .. } => cmd,
    }
}

/// `-v` for a vertical split, `-h` otherwise.
pub open spec fn split_flag(p: PaneView) -> Seq<char> {
    match p {
        PaneView::Detailed { split: Some(SplitDirection::Vertical), .. } => "-v"@,
        _ => "-h"@,
    }
}

/// The directory of a pane: its own, under the entry's, or the entry's.
pub open spec fn pane_dir(dir: Seq<char>, p: PaneView) -> Seq<char> {
    match p {
        PaneView::Detailed { dir: Some(d), .. } => path_join(dir, d),
        _ => dir,
    }
}

/// The arguments of pane `j` of a window: the first pane exists already and
/// only gets its command; later panes are split off first.
pub open spec fn pane_args(target: Seq<char>, dir: Seq<char>, j: int, p: PaneView) -> Seq<
    Seq<char>,
> {
    if j == 0 {
        send_keys_args(target, pane_cmd(p))
    } else {
        seq![";"@, "split-window"@, split_flag(p), "-t"@, target, "-c"@, pane_dir(dir, p)]
            + send_keys_args(target, pane_cmd(p))
    }
}

pub open spec fn panes_args(target: Seq<char>, dir: Seq<char>, panes: Seq<PaneView>) -> Seq<
    Seq<char>,
>
    decreases panes.len(),
{
    if panes.len() == 0 {
        Seq::empty()
    } else {
        panes_args(target, dir, panes.drop_last()) + pane_args(
            target,
            dir,
            panes.len() - 1,
            panes.last(),
        )
    }
}

/// `<session>:<index>`, the tmux target of a window.
pub open spec fn window_target(session: Seq<char>, w_idx: nat) -> Seq<char> {
    session + ":"@ + decimal(w_idx)
}

/// The arguments of window `w_idx`: the first window exists already and is
/// only renamed when it has a name; later windows are created (named when
/// they have a name); then the window's panes.
pub open spec fn window_args(session: Seq<char>, dir: Seq<char>, w_idx: nat, w: WindowView) -> Seq<
    Seq<char>,
> {
    let target = window_target(session, w_idx);
    let head = if w_idx == 0 {
        match window_name(w) {
            Some(n) => seq![";"@, "rename-window"@, "-t"@, target, n],
            None => Seq::empty(),
        }
    } else {
        new_window_args(session, dir) + match window_name(w) {
            Some(n) => seq!["-n"@, n],
            None => Seq::empty(),
        }
    };
    head + panes_args(target, dir, window_panes(w))
}

pub open spec fn detailed_windows_args(session: Seq<char>, dir: Seq<char>, ws: Seq<WindowView>) -> Seq<
    Seq<char>,
>
    decreases ws.len(),
{
    if ws.len() == 0 {
        Seq::empty()
    } else {
        detailed_windows_args(session, dir, ws.drop_last()) + window_args(
            session,
            dir,
            (ws.len() - 1) as nat,
            ws.last(),
        )
    }
}

/// The arguments that create session `session` for entry `e`.
pub open spec fn start_args_spec(session: Seq<char>, e: ResolvedView) -> Seq<Seq<char>> {
    session_open_args(session, e.directory) + match e.windows {
        WindowsView::Count(n) => count_windows_args(session, e.directory, n as nat),
        WindowsView::Detailed(ws) => detailed_windows_args(session, e.directory, ws),
    } + send_keys_args(session, e.cmd)
}

fn push_send_keys(args: &mut Vec<String>, target: &str, cmd: &str)
    ensures
        views(final(args)@) == views(old(args)@) + send_keys_args(target@, Some(cmd@)),
{
    let ghost before = views(args@);
    push_str(args, ";");
    push_str(args, "send-keys");
    push_str(args, "-t");
    push_str(args, target);
    push_str(args, cmd);
    push_str(args, "Enter");
    assert(views(args@) =~= before + send_keys_args(target@, Some(cmd@)));
}

fn push_pane_args(args: &mut Vec<String>, target: &str, dir: &str, j: usize, pane: &PaneSpec)
    ensures
        views(final(args)@) == views(old(args)@) + pane_args(target@, dir@, j as int, pane@),
{
    let ghost before = views(args@);
    let cmd: Option<&str> = match pane {
        PaneSpec::Command(c) => Some(c.as_str()),
        PaneSpec::Detailed { cmd, .. } => match cmd {
            Some(c) => Some(c.as_str()),
            None => None,
        },
    };
    if j != 0 {
        push_str(args, ";");
        push_str(args, "split-window");
        let vertical = match pane {
            PaneSpec::Detailed { split: Some(SplitDirection::Vertical), .. } => true,
            _ => false,
        };
        if vertical {
            push_str(args, "-v");
        } else {
            push_str(args, "-h");
        }
        push_str(args, "-t");
        push_str(args, target);
        push_str(args, "-c");
        match pane {
            PaneSpec::Detailed { dir: Some(d), .. } => {
                let pd = join(dir, d.as_str());
                push_str(args, pd.as_str());
            },
            _ => {
                push_str(args, dir);
            },
        }
        assert(views(args@) =~= before + seq![
            ";"@,
            "split-window"@,
            split_flag(pane@),
            "-t"@,
            target@,
            "-c"@,
            pane_dir(dir@, pane@),
        ]);
    }
    let ghost mid = views(args@);
    match cmd {
        Some(c) => push_send_keys(args, target, c),
        None => {},
    }
    assert(views(args@) =~= mid + send_keys_args(target@, pane_cmd(pane@)));
    assert(views(args@) =~= before + pane_args(target@, dir@, j as int, pane@));
}

fn push_window_args(
    args: &mut Vec<String>,
    session: &str,
    dir: &str,
    w_idx: usize,
    window: &WindowSpec,
)
    ensures
        views(final(args)@) == views(old(args)@) + window_args(
            session@,
            dir@,
            w_idx as nat,
            window@,
        ),
{
    let ghost before = views(args@);
    let idx = decimal_string(w_idx);
    let target = concat3(session, ":", idx.as_str());
    assert(target@ == window_target(session@, w_idx as nat));
    let panes = window.panes();
    if w_idx == 0 {
        match window.name() {
            Some(name) => {
                push_str(args, ";");
                push_str(args, "rename-window");
                push_str(args, "-t");
                push_str(args, target.as_str());
                push_str(args, name);
            },
            None => {},
        }
    } else {
        push_str(args, ";");
        push_str(args, "new-window");
        push_str(args, "-t");
        push_str(args, session);
        push_str(args, "-c");
        push_str(args, dir);
        match window.name() {
            Some(name) => {
                push_str(args, "-n");
                push_str(args, name);
            },
            None => {},
        }
    }
    let ghost head = views(args@);
    assert(head =~= before + if w_idx == 0 {
        match window_name(window@) {
            Some(n) => seq![";"@, "rename-window"@, "-t"@, target@, n],
            None => Seq::<Seq<char>>::empty(),
        }
    } else {
        new_window_args(session@, dir@) + match window_name(window@) {
            Some(n) => seq!["-n"@, n],
            None => Seq::<Seq<char>>::empty(),
        }
    });
    let ghost pv = crate::model::pane_views(panes@);
    let mut j: usize = 0;
    assert(pv.take(0) =~= Seq::<PaneView>::empty());
    while j < panes.len()
        invariant
            j <= panes.len(),
            pv == crate::model::pane_views(panes@),
            views(args@) == head + panes_args(target@, dir@, pv.take(j as int)),
        decreases panes.len() - j,
    {
        push_pane_args(args, target.as_str(), dir, j, &panes[j]);
        assert(pv.take(j + 1).drop_last() =~= pv.take(j as int));
        assert(pv.take(j + 1).last() == panes@[j as int]@);
        j = j + 1;
    }
    assert(pv.take(panes.len() as int) =~= pv);
    assert(views(args@) =~= before + window_args(session@, dir@, w_idx as nat, window@));
}

/// What starting sessions for some entries does, given the sessions that
/// exist: the names skipped because they exist, the names created, and the
/// single tmux argument list that creates them all.
#[derive(Debug)]
pub struct StartPlan {
    pub skipped: Vec<String>,
    pub created: Vec<String>,
    pub args: Vec<String>,
}

/// After the first `k` entries: (skipped names, created names, arguments).
/// Names are normalized; the argument lists of created sessions are chained
/// with `;`.
pub open spec fn start_plan_spec(entries: Seq<ResolvedView>, existing: Seq<Seq<char>>, k: int) -> (
    Seq<Seq<char>>,
    Seq<Seq<char>>,
    Seq<Seq<char>>,
)
    decreases k,
{
    if k <= 0 {
        (Seq::empty(), Seq::empty(), Seq::empty())
    } else {
        let st = start_plan_spec(entries, existing, k - 1);
        let e = entries[k - 1];
        let name = normalized(e.session_name);
        if existing.contains(name) {
            (st.0.push(name), st.1, st.2)
        } else {
            (
                st.0,
                st.1.push(name),
                if st.1.len() == 0 {
                    st.2 + start_args_spec(name, e)
                } else {
                    st.2 + seq![";"@] + start_args_spec(name, e)
                },
            )
        }
    }
}

pub(crate) fn holds_name(v: &[String], name: &str) -> (r: bool)
    ensures
        r == views(v@).contains(name@),
{
    let k = chars_of(name);
    let mut i: usize = 0;
    while i < v.len()
        invariant
            k@ == name@,
            i <= v.len(),
            forall|j: int| 0 <= j < i ==> views(v@)[j] != name@,
        decreases v.len() - i,
    {
        let c = chars_of(v[i].as_str());
        if chars_eq(c.as_slice(), k.as_slice()) {
            assert(views(v@)[i as int] == name@);
            return true;
        }
        i = i + 1;
    }
    false
}

fn append_strings(args: &mut Vec<String>, more: Vec<String>)
    ensures
        views(final(args)@) == views(old(args)@) + views(more@),
{
    let ghost before = views(args@);
    let ghost added = views(more@);
    let mut more = more;
    args.append(&mut more);
    assert(views(args@) =~= before + added);
}

/// The plan for starting sessions for `entries` when the sessions in
/// `existing` are already running. See [`start_plan_spec`].
pub fn plan_start_sessions(entries: &[ResolvedEntry], existing: &[String]) -> (plan: StartPlan)
    ensures
        (views(plan.skipped@), views(plan.created@), views(plan.args@)) == start_plan_spec(
            resolved_views(entries@),
            views(existing@),
            entries@.len() as int,
        ),
{
    let ghost es = resolved_views(entries@);
    let mut skipped: Vec<String> = Vec::new();
    let mut created: Vec<String> = Vec::new();
    let mut args: Vec<String> = Vec::new();
    let mut k: usize = 0;
    assert(views(skipped@) =~= Seq::<Seq<char>>::empty());
    assert(views(created@) =~= Seq::<Seq<char>>::empty());
    assert(views(args@) =~= Seq::<Seq<char>>::empty());
    while k < entries.len()
        invariant
            es == resolved_views(entries@),
            k <= entries.len(),
            (views(skipped@), views(created@), views(args@)) == start_plan_spec(
                es,
                views(existing@),
                k as int,
            ),
        decreases entries.len() - k,
    {
        let entry = &entries[k];
        let session = normalize_session_name(entry.session_name.as_str());
        assert(es[k as int] == entry@);
        if holds_name(existing, session.as_str()) {
            let ghost before = views(skipped@);
            skipped.push(session);
            assert(views(skipped@) =~= before.push(normalized(entry@.session_name)));
        } else {
            let ghost before = views(args@);
            if created.len() > 0 {
                push_str(&mut args, ";");
            }
            let more = TmuxBackend::build_start_args(session.as_str(), entry);
            append_strings(&mut args, more);
            let ghost cbefore = views(created@);
            created.push(session);
            assert(views(created@) =~= cbefore.push(normalized(entry@.session_name)));
        }
        k = k + 1;
    }
    StartPlan { skipped, created, args }
}

/// After the first `k` entries: (names killed, arguments). Only running
/// sessions are killed; the kill commands are chained with `;`.
pub open spec fn kill_plan_spec(entries: Seq<ResolvedView>, existing: Seq<Seq<char>>, k: int) -> (
    Seq<Seq<char>>,
    Seq<Seq<char>>,
)
    decreases k,
{
    if k <= 0 {
        (Seq::empty(), Seq::empty())
    } else {
        let st = kill_plan_spec(entries, existing, k - 1);
        let name = normalized(entries[k - 1].session_name);
        if !existing.contains(name) {
            st
        } else {
            (
                st.0.push(name),
                if st.1.len() == 0 {
                    seq!["kill-session"@, "-t"@, name]
                } else {
                    st.1 + seq![";"@, "kill-session"@, "-t"@, name]
                },
            )
        }
    }
}

/// What killing the sessions of some entries does: the names killed (those
/// running) and the tmux arguments that kill them.
#[derive(Debug)]
pub struct KillPlan {
    pub killed: Vec<String>,
    pub args: Vec<String>,
}

/// The plan for killing the sessions of `entries` when the sessions in
/// `existing` are running. See [`kill_plan_spec`].
pub fn plan_kill_sessions(entries: &[ResolvedEntry], existing: &[String]) -> (plan: KillPlan)
    ensures
        (views(plan.killed@), views(plan.args@)) == kill_plan_spec(
            resolved_views(entries@),
            views(existing@),
            entries@.len() as int,
        ),
{
    let ghost es = resolved_views(entries@);
    let mut killed: Vec<String> = Vec::new();
    let mut args: Vec<String> = Vec::new();
    let mut k: usize = 0;
    assert(views(killed@) =~= Seq::<Seq<char>>::empty());
    assert(views(args@) =~= Seq::<Seq<char>>::empty());
    while k < entries.len()
        invariant
            es == resolved_views(entries@),
            k <= entries.len(),
            (views(killed@), views(args@)) == kill_plan_spec(es, views(existing@), k as int),
            views(killed@).len() == 0 <==> views(args@).len() == 0,
        decreases entries.len() - k,
    {
        let entry = &entries[k];
        let session = normalize_session_name(entry.session_name.as_str());
        assert(es[k as int] == entry@);
        if holds_name(existing, session.as_str()) {
            let ghost before = views(args@);
            if args.len() > 0 {
                push_str(&mut args, ";");
            }
            push_str(&mut args, "kill-session");
            push_str(&mut args, "-t");
            push_str(&mut args, session.as_str());
            let ghost kbefore = views(killed@);
            killed.push(session);
            assert(views(killed@) =~= kbefore.push(normalized(entry@.session_name)));
            proof {
                if before.len() == 0 {
                    assert(views(args@) =~= seq![
                        "kill-session"@,
                        "-t"@,
                        normalized(entry@.session_name),
                    ]);
                } else {
                    assert(views(args@) =~= before + seq![
                        ";"@,
                        "kill-session"@,
                        "-t"@,
                        normalized(entry@.session_name),
                    ]);
                }
            }
        }
        k = k + 1;
    }
    KillPlan { killed, args }
}

/// Two window layouts that agree window by window, where a window may be a
/// command or the unnamed window with that command as its single pane.
pub open spec fn same_layout(a: Seq<WindowView>, b: Seq<WindowView>) -> bool {
    &&& a.len() == b.len()
    &&& forall|i: int|
        0 <= i < a.len() ==> #[trigger] window_name(a[i]) == window_name(b[i]) && window_panes(a[i])
            == window_panes(b[i])
}

/// A command window creates the same session as the unnamed window whose
/// single pane runs that command; more generally, the arguments of a layout
/// depend only on each window's name and panes.
pub proof fn law_command_window_is_single_pane(
    session: Seq<char>,
    dir: Seq<char>,
    a: Seq<WindowView>,
    b: Seq<WindowView>,
)
    requires
        same_layout(a, b),
    ensures
        detailed_windows_args(session, dir, a) == detailed_windows_args(session, dir, b),
    decreases a.len(),
{
    if a.len() > 0 {
        assert(same_layout(a.drop_last(), b.drop_last())) by {
            assert forall|i: int| 0 <= i < a.drop_last().len() implies #[trigger] window_name(
                a.drop_last()[i],
            ) == window_name(b.drop_last()[i]) && window_panes(a.drop_last()[i]) == window_panes(
                b.drop_last()[i],
            ) by {
                assert(a.drop_last()[i] == a[i]);
                assert(b.drop_last()[i] == b[i]);
            }
        }
        law_command_window_is_single_pane(session, dir, a.drop_last(), b.drop_last());
        assert(window_name(a[a.len() - 1]) == window_name(b[b.len() - 1]));
    }
}

/// The command window and the unnamed single-pane window are one layout.
pub proof fn law_command_window_layout(c: Seq<char>)
    ensures
        same_layout(
            seq![WindowView::Command(c)],
            seq![WindowView::Detailed { name: None, panes: seq![PaneView::Command(c)] }],
        ),
{
    let a = seq![WindowView::Command(c)];
    let b = seq![WindowView::Detailed { name: None, panes: seq![PaneView::Command(c)] }];
    assert(window_name(a[0]) == window_name(b[0]));
    assert(window_panes(a[0]) == window_panes(b[0]));
}

/// Starting never creates a session that is running, skips exactly the
/// running ones, and creates nothing (with no tmux call) when all are running.
pub proof fn law_start_skips_running_sessions(
    entries: Seq<ResolvedView>,
    existing: Seq<Seq<char>>,
    k: int,
)
    requires
        0 <= k <= entries.len(),
    ensures
        forall|x: Seq<char>|
            #[trigger] start_plan_spec(entries, existing, k).1.contains(x) ==> !existing.contains(x),
        forall|x: Seq<char>|
            #[trigger] start_plan_spec(entries, existing, k).0.contains(x) ==> existing.contains(x),
        start_plan_spec(entries, existing, k).0.len() + start_plan_spec(entries, existing, k).1.len()
            == k,
        (forall|i: int|
            0 <= i < k ==> existing.contains(normalized(#[trigger] entries[i].session_name)))
            ==> start_plan_spec(entries, existing, k).1.len() == 0 && start_plan_spec(
            entries,
            existing,
            k,
        ).2.len() == 0,
    decreases k,
{
    if k > 0 {
        law_start_skips_running_sessions(entries, existing, k - 1);
        let st = start_plan_spec(entries, existing, k - 1);
        let name = normalized(entries[k - 1].session_name);
        assert forall|x: Seq<char>|
            #[trigger] start_plan_spec(entries, existing, k).1.contains(x) implies !existing.contains(
            x,
        ) by {
            let r = start_plan_spec(entries, existing, k).1;
            let j = choose|j: int| 0 <= j < r.len() && r[j] == x;
            if !existing.contains(name) && j == st.1.len() {
            } else {
                assert(st.1[j] == x);
                assert(st.1.contains(x));
            }
        }
        assert forall|x: Seq<char>|
            #[trigger] start_plan_spec(entries, existing, k).0.contains(x) implies existing.contains(
            x,
        ) by {
            let r = start_plan_spec(entries, existing, k).0;
            let j = choose|j: int| 0 <= j < r.len() && r[j] == x;
            if existing.contains(name) && j == st.0.len() {
            } else {
                assert(st.0[j] == x);
                assert(st.0.contains(x));
            }
        }
        if forall|i: int|
            0 <= i < k ==> existing.contains(normalized(#[trigger] entries[i].session_name)) {
            assert(existing.contains(normalized(entries[k - 1].session_name)));
        }
    }
}

proof fn lemma_count_windows_blocks(session: Seq<char>, dir: Seq<char>, n: nat)
    ensures
        n >= 1 ==> count_windows_args(session, dir, n).len() == 6 * (n - 1),
        n == 0 ==> count_windows_args(session, dir, n).len() == 0,
        forall|k: int|
            0 <= k && k + 1 < n ==> #[trigger] count_windows_args(session, dir, n).subrange(
                6 * k,
                6 * k + 6,
            ) == seq![";"@, "new-window"@, "-t"@, session, "-c"@, dir],
    decreases n,
{
    if n > 1 {
        let m = (n - 1) as nat;
        lemma_count_windows_blocks(session, dir, m);
        let prev = count_windows_args(session, dir, m);
        let all = count_windows_args(session, dir, n);
        assert(all == prev + new_window_args(session, dir));
        assert forall|k: int| 0 <= k && k + 1 < n implies #[trigger] all.subrange(
            6 * k,
            6 * k + 6,
        ) == seq![";"@, "new-window"@, "-t"@, session, "-c"@, dir] by {
            if k + 1 < m {
                assert(all.subrange(6 * k, 6 * k + 6) =~= prev.subrange(6 * k, 6 * k + 6));
            } else {
                assert(all.subrange(6 * k, 6 * k + 6) =~= new_window_args(session, dir));
            }
        }
    }
}

/// A session of `n` plain windows (one when `n` is 0) is opened in the
/// entry's directory and gets `n - 1` more windows there, each with its own
/// `new-window` command, then the entry's command if it has one; nothing
/// else.
pub proof fn law_count_windows_start_args(session: Seq<char>, e: ResolvedView, n: u32)
    requires
        e.windows == WindowsView::Count(n),
    ensures
        ({
            let a = start_args_spec(session, e);
            let w: int = if n == 0 {
                1
            } else {
                n as int
            };
            &&& a.len() == 6 * w + if e.cmd is Some {
                6int
            } else {
                0int
            }
            &&& a.subrange(0, 6) == seq!["new-session"@, "-d"@, "-s"@, session, "-c"@, e.directory]
            &&& forall|k: int|
                1 <= k < w ==> #[trigger] a.subrange(6 * k, 6 * k + 6) == seq![
                    ";"@,
                    "new-window"@,
                    "-t"@,
                    session,
                    "-c"@,
                    e.directory,
                ]
            &&& e.cmd matches Some(c) ==> a.subrange(6 * w, 6 * w + 6) == seq![
                ";"@,
                "send-keys"@,
                "-t"@,
                session,
                c,
                "Enter"@,
            ]
        }),
{
    let a = start_args_spec(session, e);
    let d = e.directory;
    let w: int = if n == 0 {
        1
    } else {
        n as int
    };
    lemma_count_windows_blocks(session, d, n as nat);
    let head = session_open_args(session, d);
    let body = count_windows_args(session, d, n as nat);
    let tail = send_keys_args(session, e.cmd);
    assert(a == head + body + tail);
    assert(body.len() == 6 * (w - 1));
    assert(a.subrange(0, 6) =~= head);
    assert forall|k: int| 1 <= k < w implies #[trigger] a.subrange(6 * k, 6 * k + 6) == seq![
        ";"@,
        "new-window"@,
        "-t"@,
        session,
        "-c"@,
        e.directory,
    ] by {
        assert(body.subrange(6 * (k - 1), 6 * (k - 1) + 6) == seq![
            ";"@,
            "new-window"@,
            "-t"@,
            session,
            "-c"@,
            d,
        ]);
        assert(a.subrange(6 * k, 6 * k + 6) =~= body.subrange(6 * (k - 1), 6 * (k - 1) + 6));
    }
    if e.cmd is Some {
        assert(a.subrange(6 * w, 6 * w + 6) =~= tail);
    }
}

/// The names of the sessions to create run in order through the entries
/// whose normalized session name is not running yet.
pub open spec fn not_running(existing: Seq<Seq<char>>) -> spec_fn(ResolvedView) -> bool {
    |e: ResolvedView| !existing.contains(normalized(e.session_name))
}

/// Argument lists joined into one tmux call, with `;` between them.
pub open spec fn chained(parts: Seq<Seq<Seq<char>>>) -> Seq<Seq<char>>
    decreases parts.len(),
{
    if parts.len() == 0 {
        Seq::empty()
    } else if parts.len() == 1 {
        parts[0]
    } else {
        chained(parts.drop_last()) + seq![";"@] + parts.last()
    }
}

/// Starting creates, in order, the entries whose (normalized) session is not
/// running, under their normalized names, and its arguments are the start
/// arguments of each created session, under that same normalized name,
/// joined with `;`.
pub proof fn law_start_plan_creates_normalized(
    entries: Seq<ResolvedView>,
    existing: Seq<Seq<char>>,
    k: int,
)
    requires
        0 <= k <= entries.len(),
    ensures
        ({
            let made = entries.take(k).filter(not_running(existing));
            &&& start_plan_spec(entries, existing, k).1 == made.map_values(
                |e: ResolvedView| normalized(e.session_name),
            )
            &&& start_plan_spec(entries, existing, k).2 == chained(
                made.map_values(|e: ResolvedView| start_args_spec(normalized(e.session_name), e)),
            )
        }),
    decreases k,
{
    reveal(Seq::filter);
    let made = entries.take(k).filter(not_running(existing));
    if k == 0 {
        assert(entries.take(0) =~= Seq::<ResolvedView>::empty());
        assert(made =~= Seq::<ResolvedView>::empty());
        assert(made.map_values(|e: ResolvedView| normalized(e.session_name)) =~= Seq::<
            Seq<char>,
        >::empty());
        assert(made.map_values(|e: ResolvedView| start_args_spec(normalized(e.session_name), e))
            =~= Seq::<Seq<Seq<char>>>::empty());
    } else {
        law_start_plan_creates_normalized(entries, existing, k - 1);
        let e = entries[k - 1];
        assert(entries.take(k).drop_last() =~= entries.take(k - 1));
        assert(entries.take(k).last() == e);
        let prev = entries.take(k - 1).filter(not_running(existing));
        let names = |x: ResolvedView| normalized(x.session_name);
        let argsf = |x: ResolvedView| start_args_spec(normalized(x.session_name), x);
        let st = start_plan_spec(entries, existing, k - 1);
        assert(st.1.len() == prev.len());
        if existing.contains(normalized(e.session_name)) {
            assert(made == prev);
        } else {
            assert(made == prev.push(e));
            assert(made.map_values(names) =~= prev.map_values(names).push(names(e)));
            let pa = prev.map_values(argsf);
            assert(made.map_values(argsf) =~= pa.push(argsf(e)));
            assert(pa.push(argsf(e)).drop_last() =~= pa);
            if prev.len() == 0 {
                assert(pa =~= Seq::<Seq<Seq<char>>>::empty());
                assert(st.2 == Seq::<Seq<char>>::empty());
                assert(st.2 + start_args_spec(normalized(e.session_name), e) =~= argsf(e));
            }
        }
    }
}

/// Killing only kills running sessions, and kills every running one.
pub proof fn law_kill_only_running_sessions(
    entries: Seq<ResolvedView>,
    existing: Seq<Seq<char>>,
    k: int,
)
    requires
        0 <= k <= entries.len(),
    ensures
        forall|x: Seq<char>|
            #[trigger] kill_plan_spec(entries, existing, k).0.contains(x) ==> existing.contains(x),
        forall|i: int|
            0 <= i < k && existing.contains(normalized(#[trigger] entries[i].session_name))
                ==> kill_plan_spec(entries, existing, k).0.contains(normalized(entries[i].session_name)),
    decreases k,
{
    if k > 0 {
        law_kill_only_running_sessions(entries, existing, k - 1);
        let st = kill_plan_spec(entries, existing, k - 1);
        let name = normalized(entries[k - 1].session_name);
        let r = kill_plan_spec(entries, existing, k).0;
        assert forall|x: Seq<char>| #[trigger] r.contains(x) implies existing.contains(x) by {
            let j = choose|j: int| 0 <= j < r.len() && r[j] == x;
            if existing.contains(name) && j == st.0.len() {
            } else {
                assert(st.0[j] == x);
                assert(st.0.contains(x));
            }
        }
        assert forall|i: int|
            0 <= i < k && existing.contains(normalized(#[trigger] entries[i].session_name)) implies r.contains(
            normalized(entries[i].session_name),
        ) by {
            if i < k - 1 {
                let x = normalized(entries[i].session_name);
                assert(st.0.contains(x));
                let j = choose|j: int| 0 <= j < st.0.len() && st.0[j] == x;
                if existing.contains(name) {
                    assert(st.0.push(name)[j] == x);
                }
            } else {
                assert(st.0.push(name)[st.0.len() as int] == name);
            }
        }
    }
}

/// Line `i` of the pieces of a text split at `\n` (as `str::lines` gives it):
/// a `\r` that ends a line before its `\n` is not part of the line.
pub open spec fn line_at(pieces: Seq<Seq<char>>, i: int) -> Seq<char> {
    let p = pieces[i];
    if i < pieces.len() - 1 && p.len() > 0 && p.last() == '\r' {
        p.drop_last()
    } else {
        p
    }
}

/// The non-empty lines among the first `k` pieces.
pub open spec fn nonempty_lines(pieces: Seq<Seq<char>>, k: int) -> Seq<Seq<char>>
    decreases k,
{
    if k <= 0 {
        Seq::empty()
    } else {
        let r = nonempty_lines(pieces, k - 1);
        let l = line_at(pieces, k - 1);
        if l.len() > 0 {
            r.push(l)
        } else {
            r
        }
    }
}

/// The session names in the output of `tmux list-sessions -F
/// '#{session_name}'`: its non-empty lines.
pub open spec fn session_names_spec(output: Seq<char>) -> Seq<Seq<char>> {
    let pieces = split_on(output, '\n');
    nonempty_lines(pieces, pieces.len() as int)
}

proof fn lemma_split_on_len(s: Seq<char>, sep: char)
    ensures
        split_on(s, sep).len() >= 1,
    decreases s.len(),
{
    if s.len() > 0 {
        lemma_split_on_len(s.drop_first(), sep);
    }
}

proof fn lemma_split_on_push(t: Seq<char>, c: char, sep: char)
    ensures
        split_on(t.push(c), sep) == if c == sep {
            split_on(t, sep).push(Seq::<char>::empty())
        } else {
            split_on(t, sep).update(
                split_on(t, sep).len() - 1,
                split_on(t, sep).last().push(c),
            )
        },
    decreases t.len(),
{
    lemma_split_on_len(t, sep);
    if t.len() == 0 {
        let one = t.push(c);
        assert(one.drop_first() =~= Seq::<char>::empty());
        assert(split_on(one.drop_first(), sep) == seq![Seq::<char>::empty()]);
        assert(split_on(t, sep) == seq![Seq::<char>::empty()]);
        assert(one[0] == c);
        if c != sep {
            assert(seq![c] + Seq::<char>::empty() =~= Seq::<char>::empty().push(c));
        }
        assert(split_on(t.push(c), sep) =~= if c == sep {
            split_on(t, sep).push(Seq::<char>::empty())
        } else {
            split_on(t, sep).update(
                split_on(t, sep).len() - 1,
                split_on(t, sep).last().push(c),
            )
        });
    } else {
        let tail = t.drop_first();
        lemma_split_on_push(tail, c, sep);
        lemma_split_on_len(tail, sep);
        assert(t.push(c).drop_first() =~= tail.push(c));
        assert(t.push(c)[0] == t[0]);
        let h = t[0];
        let r = split_on(tail, sep);
        let rr = split_on(tail.push(c), sep);
        let l = r.len() - 1;
        assert(split_on(t, sep) == if h == sep {
            seq![Seq::<char>::empty()] + r
        } else {
            r.update(0, seq![h] + r[0])
        });
        assert(split_on(t.push(c), sep) == if h == sep {
            seq![Seq::<char>::empty()] + rr
        } else {
            rr.update(0, seq![h] + rr[0])
        });
        let lhs = split_on(t.push(c), sep);
        let st = split_on(t, sep);
        if h == sep {
            if c == sep {
                assert(lhs =~= st.push(Seq::<char>::empty()));
            } else {
                assert(lhs =~= st.update(st.len() - 1, st.last().push(c)));
            }
        } else {
            if c == sep {
                assert(rr[0] == r[0]);
                assert(lhs =~= st.push(Seq::<char>::empty()));
            } else if l == 0 {
                assert(rr[0] == r[0].push(c));
                assert(seq![h] + r[0].push(c) =~= (seq![h] + r[0]).push(c));
                assert(lhs =~= st.update(st.len() - 1, st.last().push(c)));
            } else {
                assert(rr[0] == r[0]);
                assert(lhs =~= st.update(st.len() - 1, st.last().push(c)));
            }
        }
    }
}

proof fn lemma_nonempty_lines_agree(a: Seq<Seq<char>>, b: Seq<Seq<char>>, k: int)
    requires
        forall|i: int| 0 <= i < k ==> #[trigger] line_at(a, i) == line_at(b, i),
    ensures
        nonempty_lines(a, k) == nonempty_lines(b, k),
    decreases k,
{
    if k > 0 {
        lemma_nonempty_lines_agree(a, b, k - 1);
        assert(line_at(a, k - 1) == line_at(b, k - 1));
    }
}

/// The session names in tmux's `list-sessions` output.
pub fn session_names(output: &str) -> (r: Vec<String>)
    ensures
        views(r@) == session_names_spec(output@),
{
    let cs = chars_of(output);
    let mut done: Vec<String> = Vec::new();
    let mut cur: Vec<char> = Vec::new();
    let mut k: usize = 0;
    proof {
        assert(cs@.take(0) =~= Seq::<char>::empty());
        assert(views(done@) =~= Seq::<Seq<char>>::empty());
        assert(cur@ =~= Seq::<char>::empty());
    }
    while k < cs.len()
        invariant
            k <= cs.len(),
            split_on(cs@.take(k as int), '\n').len() >= 1,
            split_on(cs@.take(k as int), '\n').last() == cur@,
            views(done@) == nonempty_lines(
                split_on(cs@.take(k as int), '\n'),
                split_on(cs@.take(k as int), '\n').len() - 1,
            ),
        decreases cs.len() - k,
    {
        let c = cs[k];
        let ghost p = split_on(cs@.take(k as int), '\n');
        proof {
            assert(cs@.take(k + 1) =~= cs@.take(k as int).push(c));
            lemma_split_on_push(cs@.take(k as int), c, '\n');
        }
        let ghost q = split_on(cs@.take(k + 1), '\n');
        if c == '\n' {
            let n = cur.len();
            let line = if n > 0 && cur[n - 1] == '\r' {
                vstd::slice::slice_subrange(cur.as_slice(), 0, n - 1)
            } else {
                cur.as_slice()
            };
            assert(line@ == line_at(q, p.len() - 1)) by {
                if n > 0 && cur@[n - 1] == '\r' {
                    assert(cur@.subrange(0, n - 1) =~= cur@.drop_last());
                }
            }
            proof {
                assert forall|i: int| 0 <= i < p.len() - 1 implies #[trigger] line_at(q, i)
                    == line_at(p, i) by {
                    assert(q[i] == p[i]);
                }
                lemma_nonempty_lines_agree(q, p, p.len() - 1);
            }
            if line.len() > 0 {
                let ghost before = views(done@);
                done.push(string_from_chars(line));
                assert(views(done@) =~= before.push(line@));
            }
            cur = Vec::new();
            assert(cur@ =~= Seq::<char>::empty());
        } else {
            proof {
                assert forall|i: int| 0 <= i < p.len() - 1 implies #[trigger] line_at(q, i)
                    == line_at(p, i) by {
                    assert(q[i] == p[i]);
                }
                lemma_nonempty_lines_agree(q, p, p.len() - 1);
            }
            cur.push(c);
        }
        k = k + 1;
    }
    let ghost p = split_on(cs@.take(k as int), '\n');
    assert(cs@.take(k as int) =~= output@);
    let mut names = done;
    if cur.len() > 0 {
        let ghost before = views(names@);
        names.push(string_from_chars(cur.as_slice()));
        assert(views(names@) =~= before.push(cur@));
    }
    assert(line_at(p, p.len() - 1) == cur@);
    names
}

} // verus!
