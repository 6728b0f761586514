//! Showing what a session holds.

use vstd::prelude::*;

use crate::list;
use crate::session::{self, Session, WindowEntry, WorkspaceEntry};
use crate::text;

verus! {

/// How old a session file is. The outer `None` stands for a file whose time cannot
/// be read, the inner one for a time that is still to come.
pub open spec fn file_age_text(path: Seq<char>, age: Option<Option<u64>>) -> Seq<char> {
    match age {
        None => "session at "@ + path,
        Some(age) => "session saved "@ + list::age_text(age),
    }
}

/// How old a session file is. The outer `None` stands for a file whose time cannot
/// be read, the inner one for a time that is still to come.
pub fn file_age(path: &str, age: Option<Option<u64>>) -> (r: String)
    ensures
        r@ == file_age_text(path@, age),
{
    match age {
        None => text::join2("session at ", path),
        Some(age) => {
            let when: String = list::format_age(age);
            text::join2("session saved ", when.as_str())
        },
    }
}

/// The line for a workspace, with an empty line before it.
pub open spec fn workspace_text(id: i32, active: i32) -> Seq<char> {
    "\n  workspace "@ + text::signed_decimal(id as int) + (if id == active {
        "  ← active"@
    } else {
        ""@
    })
}

fn workspace_line(id: i32, active: i32) -> (r: String)
    ensures
        r@ == workspace_text(id, active),
{
    let number: String = text::i32_text(id);
    let mark: &str = if id == active {
        "  ← active"
    } else {
        ""
    };
    text::join3("\n  workspace ", number.as_str(), mark)
}

/// The line for a window whose column takes `percent` of the monitor.
pub open spec fn window_text(class: Seq<char>, percent: Seq<char>) -> Seq<char> {
    "    "@ + text::padded(class, 40) + " "@ + percent + "%"@
}

fn window_line(class: &str, percent: &str) -> (r: String)
    ensures
        r@ == window_text(class@, percent@),
{
    let class: String = text::pad_right(class, 40);
    let head: String = text::join3("    ", class.as_str(), " ");
    text::join3(head.as_str(), percent, "%")
}

/// The lines for the first `n` windows.
pub open spec fn window_lines(windows: Seq<WindowEntry<String>>, n: nat) -> Seq<Seq<char>>
    decreases n,
{
    if n == 0 {
        Seq::empty()
    } else {
        window_lines(windows, (n - 1) as nat).push(
            window_text(windows[n - 1].class@, windows[n - 1].col_width@),
        )
    }
}

/// The lines for the first `n` workspaces.
pub open spec fn workspace_lines(
    workspaces: Seq<WorkspaceEntry<String>>,
    active: i32,
    n: nat,
) -> Seq<Seq<char>>
    decreases n,
{
    if n == 0 {
        Seq::empty()
    } else {
        let w = workspaces[n - 1];
        workspace_lines(workspaces, active, (n - 1) as nat).push(
            workspace_text(w.workspace, active),
        ) + window_lines(w.windows@, w.windows@.len())
    }
}

/// The line that tells how old a session is and how much it holds.
pub open spec fn head_text(age: Seq<char>, workspaces: nat, windows: nat) -> Seq<char> {
    age + " ("@ + list::counts_text(workspaces, windows) + ")"@
}

fn push_windows(lines: &mut Vec<String>, windows: &Vec<WindowEntry<String>>)
    ensures
        text::texts(final(lines)@) == text::texts(old(lines)@) + window_lines(
            windows@,
            windows@.len(),
        ),
{
    let ghost was = text::texts(lines@);
    let mut i: usize = 0;
    assert(was =~= was + window_lines(windows@, 0));
    while i < windows.len()
        invariant
            0 <= i <= windows@.len(),
            text::texts(lines@) == was + window_lines(windows@, i as nat),
        decreases windows@.len() - i,
    {
        let ghost before = text::texts(lines@);
        let line: String = window_line(windows[i].class.as_str(), windows[i].col_width.as_str());
        lines.push(line);
        assert(text::texts(lines@) =~= before.push(line@));
        assert(text::texts(lines@) =~= was + window_lines(windows@, i as nat + 1));
        i += 1;
    }
}

/// The lines that show a session. The widths of its columns are given as texts, in
/// percent.
pub fn run(session: &Session<String>, age: &str) -> (r: Vec<String>)
    ensures
        text::texts(r@) == seq![
            head_text(
                age@,
                session.workspaces@.len(),
                session::capped(session::windows_in_all(session.workspaces@)),
            ),
        ] + workspace_lines(
            session.workspaces@,
            session.active_workspace,
            session.workspaces@.len(),
        ),
{
    let ghost all = session.workspaces@;
    let ghost active = session.active_workspace;
    let counted: String = list::counts(
        session.workspaces.len(),
        session::count_windows(&session.workspaces),
    );
    let head: String = text::join3(age, " (", counted.as_str());
    let head: String = text::join2(head.as_str(), ")");
    let mut lines: Vec<String> = Vec::new();
    lines.push(head);
    let ghost first = seq![head@];
    let mut i: usize = 0;
    assert(text::texts(lines@) =~= first + workspace_lines(all, active, 0));
    while i < session.workspaces.len()
        invariant
            0 <= i <= session.workspaces@.len(),
            all == session.workspaces@,
            active == session.active_workspace,
            text::texts(lines@) == first + workspace_lines(all, active, i as nat),
        decreases session.workspaces@.len() - i,
    {
        let w: &WorkspaceEntry<String> = &session.workspaces[i];
        let ghost before = text::texts(lines@);
        let line: String = workspace_line(w.workspace, session.active_workspace);
        lines.push(line);
        assert(text::texts(lines@) =~= before.push(line@));
        push_windows(&mut lines, &w.windows);
        assert(text::texts(lines@) =~= first + workspace_lines(all, active, i as nat + 1));
        i += 1;
    }
    lines
}

/// A session is shown workspace by workspace: a line for the workspace, which marks
/// the one with the focus and no other, and then a line for each window.
pub proof fn law_workspaces_are_shown_in_order(
    workspaces: Seq<WorkspaceEntry<String>>,
    active: i32,
    n: nat,
)
    requires
        n < workspaces.len(),
    ensures
        ({
            let before = workspace_lines(workspaces, active, n);
            let now = workspace_lines(workspaces, active, n + 1);
            let w = workspaces[n as int];
            let id = text::signed_decimal(w.workspace as int);
            &&& workspace_lines(workspaces, active, 0).len() == 0
            &&& now.len() == before.len() + 1 + w.windows@.len()
            &&& now.take(before.len() as int) == before
            &&& w.workspace == active ==> now[before.len() as int] == "\n  workspace "@ + id
                + "  ← active"@
            &&& w.workspace != active ==> now[before.len() as int] == "\n  workspace "@ + id
            &&& forall|i: int|
                0 <= i < w.windows@.len() ==> #[trigger] now[before.len() + 1 + i] == window_text(
                    w.windows@[i].class@,
                    w.windows@[i].col_width@,
                )
        }),
{
    reveal_strlit("");
    let before = workspace_lines(workspaces, active, n);
    let now = workspace_lines(workspaces, active, n + 1);
    let w = workspaces[n as int];
    let own = window_lines(w.windows@, w.windows@.len());
    lemma_window_lines(w.windows@, w.windows@.len());
    assert(now == before.push(workspace_text(w.workspace, active)) + own);
    assert(now.take(before.len() as int) =~= before);
    if w.workspace != active {
        assert(workspace_text(w.workspace, active) =~= "\n  workspace "@ + text::signed_decimal(
            w.workspace as int,
        ));
    }
    assert forall|i: int| 0 <= i < w.windows@.len() implies #[trigger] now[before.len() + 1 + i]
        == window_text(w.windows@[i].class@, w.windows@[i].col_width@) by {
        assert(now[before.len() + 1 + i] == own[i]);
    }
}

proof fn lemma_window_lines(windows: Seq<WindowEntry<String>>, n: nat)
    requires
        n <= windows.len(),
    ensures
        window_lines(windows, n).len() == n,
        forall|i: int|
            0 <= i < n ==> #[trigger] window_lines(windows, n)[i] == window_text(
                windows[i].class@,
                windows[i].col_width@,
            ),
    decreases n,
{
    if n > 0 {
        lemma_window_lines(windows, (n - 1) as nat);
    }
}

/// The line for a window shows its class, in a column, and its width in percent.
pub proof fn law_windows_are_shown_with_their_width(class: Seq<char>, percent: Seq<char>)
    requires
        class.len() <= 40,
    ensures
        ({
            let line = window_text(class, percent);
            &&& line.subrange(4, 4int + class.len()) == class
            &&& line.skip(45) == percent + "%"@
            &&& line.len() == 46 + percent.len()
        }),
{
    reveal_strlit("    ");
    reveal_strlit(" ");
    reveal_strlit("%");
    text::law_padding_fills_up(class, 40);
    let line = window_text(class, percent);
    let c = text::padded(class, 40);
    assert(line.subrange(4, 4int + class.len()) =~= c.take(class.len() as int));
    assert(line.skip(45) =~= percent + "%"@);
}

/// The first line tells how old the session is, and how much it holds.
pub proof fn law_age_is_told_first(
    path: Seq<char>,
    age: Option<Option<u64>>,
    workspaces: nat,
    windows: nat,
)
    ensures
        age is None ==> file_age_text(path, age) == "session at "@ + path,
        age is Some ==> file_age_text(path, age) == "session saved "@ + list::age_text(age->0),
        text::begins(
            head_text(file_age_text(path, age), workspaces, windows),
            file_age_text(path, age) + " ("@,
        ),
        text::ends(
            head_text(file_age_text(path, age), workspaces, windows),
            list::counts_text(workspaces, windows) + ")"@,
        ),
{
    let a = file_age_text(path, age);
    let counts = list::counts_text(workspaces, windows);
    assert(head_text(a, workspaces, windows) =~= (a + " ("@) + (counts + ")"@));
}

/// The status has a heading with the age and the numbers first, and then all
/// workspaces.
pub proof fn law_status_starts_with_the_age(
    session: &Session<String>,
    age: &str,
    r: Vec<String>,
)
    requires
        call_ensures(run, (session, age), r),
    ensures
        r@.len() > 0,
        r@[0]@ == head_text(
            age@,
            session.workspaces@.len(),
            session::capped(session::windows_in_all(session.workspaces@)),
        ),
        text::texts(r@).skip(1) == workspace_lines(
            session.workspaces@,
            session.active_workspace,
            session.workspaces@.len(),
        ),
{
    let lines = text::texts(r@);
    assert(lines.len() == r@.len());
    assert(lines.len() > 0);
    assert(lines[0] == r@[0]@);
    assert(lines.skip(1) =~= workspace_lines(
        session.workspaces@,
        session.active_workspace,
        session.workspaces@.len(),
    ));
}

} // verus!
