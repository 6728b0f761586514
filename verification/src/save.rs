//! Saving the windows that are open.

use std::collections::HashMap;

use vstd::prelude::*;

use crate::hyprland::{self, HyprClient};
use crate::order::{self, Ranked, Sortable};
use crate::restore::{columns, live, plan, tally};
use crate::session::{self, Session, WindowEntry, WorkspaceEntry};
use crate::text;

verus! {

broadcast use vstd::std_specs::hash::group_hash_axioms;

/// Whether a window is saved: it is tiled, on an ordinary workspace, and on the
/// workspace `only` where there is one.
pub open spec fn is_saved(c: HyprClient, only: Option<i32>) -> bool {
    &&& c.mapped
    &&& !c.floating
    &&& c.workspace_id > 0
    &&& only matches Some(id) ==> c.workspace_id == id
}

/// Whether a window is saved.
pub fn is_captured(client: &HyprClient, only: Option<i32>) -> (r: bool)
    ensures
        r == is_saved(*client, only),
{
    if !client.mapped || client.floating || client.workspace_id <= 0 {
        return false;
    }
    match only {
        Some(id) => client.workspace_id == id,
        None => true,
    }
}

/// The width of a monitor.
pub open spec fn width_of_monitor(monitors: Map<i32, i32>, monitor: i32) -> i32 {
    if monitors.contains_key(monitor) {
        monitors[monitor]
    } else {
        hyprland::FALLBACK_MONITOR_WIDTH
    }
}

/// The width of a monitor, for the fraction that a column takes of it.
pub fn monitor_width(monitors: &HashMap<i32, i32>, monitor: i32) -> (r: i32)
    ensures
        r == width_of_monitor(monitors@, monitor),
{
    match monitors.get(&monitor) {
        Some(w) => *w,
        None => hyprland::FALLBACK_MONITOR_WIDTH,
    }
}

/// An open window with what was found out about it.
pub struct Probed<W> {
    pub client: HyprClient,
    /// Where the program of the window is, if that can be read.
    pub exe: Option<String>,
    /// The width of its column.
    pub col_width: W,
}

/// A saved window with its workspace and its position from the left.
pub struct RowValue<W> {
    pub workspace: i32,
    pub x: i32,
    pub class: Seq<char>,
    pub exe: Seq<char>,
    pub launch_args: Option<Vec<String>>,
    pub col_width: W,
}

/// A row, as values.
pub open spec fn row_value<W>(row: (i32, i32, WindowEntry<W>)) -> RowValue<W> {
    RowValue {
        workspace: row.0,
        x: row.1,
        class: row.2.class@,
        exe: row.2.exe@,
        launch_args: row.2.launch_args,
        col_width: row.2.col_width,
    }
}

/// The values of a sequence of rows.
pub open spec fn row_values<W>(rows: Seq<(i32, i32, WindowEntry<W>)>) -> Seq<RowValue<W>> {
    rows.map_values(|r: (i32, i32, WindowEntry<W>)| row_value(r))
}

/// Whether a window becomes a row: it is saved, and its program is known.
pub open spec fn is_row<W>(only: Option<i32>) -> spec_fn(Probed<W>) -> bool {
    |p: Probed<W>| is_saved(p.client, only) && p.exe is Some
}

/// The row of a window.
pub open spec fn row_of<W>(p: Probed<W>) -> RowValue<W> {
    RowValue {
        workspace: p.client.workspace_id,
        x: p.client.x,
        class: p.client.initial_class@,
        exe: text::without_suffixes(p.exe->0@, " (deleted)"@),
        launch_args: None,
        col_width: p.col_width,
    }
}

/// The rows of the open windows.
pub open spec fn rows_of<W>(windows: Seq<Probed<W>>, only: Option<i32>) -> Seq<RowValue<W>> {
    windows.filter(is_row(only)).map_values(|p: Probed<W>| row_of(p))
}

impl<W> Ranked for (i32, i32, WindowEntry<W>) {
    open spec fn rank(&self) -> int {
        self.0 * 0x1_0000_0000 + self.1
    }
}

impl<W> Sortable for (i32, i32, WindowEntry<W>) {
    fn ranks_after(&self, other: &Self) -> (r: bool) {
        self.0 > other.0 || (self.0 == other.0 && self.1 > other.1)
    }
}

/// A workspace and its windows.
pub struct Group<W> {
    pub workspace: i32,
    pub windows: Seq<WindowEntry<W>>,
}

/// The workspaces of a session, as values.
pub open spec fn groups<W>(workspaces: Seq<WorkspaceEntry<W>>) -> Seq<Group<W>> {
    workspaces.map_values(
        |w: WorkspaceEntry<W>| Group { workspace: w.workspace, windows: w.windows@ },
    )
}

/// Rows one after another, where neighbours of one workspace are put together.
pub open spec fn grouped<W>(rows: Seq<(i32, i32, WindowEntry<W>)>) -> Seq<Group<W>>
    decreases rows.len(),
{
    if rows.len() == 0 {
        Seq::empty()
    } else {
        let before = grouped(rows.drop_last());
        let row = rows.last();
        if before.len() > 0 && before.last().workspace == row.0 {
            before.drop_last().push(
                Group { workspace: row.0, windows: before.last().windows.push(row.2) },
            )
        } else {
            before.push(Group { workspace: row.0, windows: seq![row.2] })
        }
    }
}

/// Sorts rows (workspace, position from the left, window) and puts the windows of
/// each workspace together, from left to right.
pub fn group_into_workspaces<W>(rows: Vec<(i32, i32, WindowEntry<W>)>) -> (r: Vec<
    WorkspaceEntry<W>,
>)
    ensures
        groups(r@) == grouped(order::sorted(rows@)),
{
    let mut rows = rows;
    order::stable_sort(&mut rows);
    let ghost all = rows@;
    let ghost mut i: int = 0;
    let mut workspaces: Vec<WorkspaceEntry<W>> = Vec::new();
    proof {
        assert(all.skip(0) =~= all);
        assert(groups(workspaces@) =~= grouped(all.take(0)));
    }
    while rows.len() > 0
        invariant
            0 <= i <= all.len(),
            rows@ == all.skip(i),
            groups(workspaces@) == grouped(all.take(i)),
        decreases rows@.len(),
    {
        let ghost was = groups(workspaces@);
        let (ws_id, x, entry) = rows.remove(0);
        proof {
            assert(all.skip(i).remove(0) =~= all.skip(i + 1));
            assert(all.take(i + 1).drop_last() =~= all.take(i));
            assert(all.take(i + 1).last() == (ws_id, x, entry));
            i = i + 1;
        }
        let last: usize = workspaces.len();
        if last > 0 && workspaces[last - 1].workspace == ws_id {
            assert(was.last().windows == workspaces@[last - 1].windows@);
            let ghost kept = workspaces@.drop_last();
            let mut ws: WorkspaceEntry<W> = workspaces.remove(last - 1);
            assert(workspaces@ =~= kept);
            let ghost had = ws.windows@;
            ws.windows.push(entry);
            workspaces.push(ws);
            assert(groups(workspaces@) =~= was.drop_last().push(
                Group { workspace: ws_id, windows: had.push(entry) },
            ));
        } else {
            let mut windows: Vec<WindowEntry<W>> = Vec::new();
            windows.push(entry);
            assert(windows@ =~= seq![entry]);
            let ws = WorkspaceEntry { workspace: ws_id, windows };
            workspaces.push(ws);
            assert(groups(workspaces@) =~= was.push(
                Group { workspace: ws_id, windows: seq![entry] },
            ));
        }
    }
    assert(all.take(all.len() as int) =~= all);
    workspaces
}

/// The rows of the open windows that are saved.
fn collect_rows<W>(windows: Vec<Probed<W>>, only: Option<i32>) -> (r: Vec<
    (i32, i32, WindowEntry<W>),
>)
    ensures
        row_values(r@) == rows_of(windows@, only),
{
    let ghost all = windows@;
    let mut windows = windows;
    let ghost mut i: int = 0;
    let mut rows: Vec<(i32, i32, WindowEntry<W>)> = Vec::new();
    proof {
        assert(all.skip(0) =~= all);
        reveal_with_fuel(Seq::filter, 1);
        assert(row_values(rows@) =~= rows_of(all.take(0), only));
    }
    while windows.len() > 0
        invariant
            0 <= i <= all.len(),
            windows@ == all.skip(i),
            row_values(rows@) == rows_of(all.take(i), only),
        decreases windows@.len(),
    {
        let ghost was = row_values(rows@);
        let p: Probed<W> = windows.remove(0);
        proof {
            assert(all.skip(i).remove(0) =~= all.skip(i + 1));
            assert(all.take(i + 1) =~= all.take(i).push(p));
            all.take(i).lemma_filter_push(p, is_row(only));
            if is_row(only)(p) {
                assert(rows_of(all.take(i + 1), only) =~= rows_of(all.take(i), only).push(
                    row_of(p),
                ));
            }
            i = i + 1;
        }
        if is_captured(&p.client, only) {
            if let Some(exe) = p.exe {
                let row = (
                    p.client.workspace_id,
                    p.client.x,
                    WindowEntry {
                        class: p.client.initial_class,
                        exe: text::trim_end_matches(exe.as_str(), " (deleted)"),
                        launch_args: None,
                        col_width: p.col_width,
                    },
                );
                rows.push(row);
                assert(row_values(rows@) =~= was.push(row_value(row)));
            }
        }
    }
    assert(all.take(all.len() as int) =~= all);
    rows
}

/// The workspaces that the open windows are saved as, by workspace and then from
/// left to right. With `only`, just the windows of that workspace.
pub fn capture_workspaces<W>(windows: Vec<Probed<W>>, only: Option<i32>) -> (r: Vec<
    WorkspaceEntry<W>,
>)
    ensures
        exists|rows: Seq<(i32, i32, WindowEntry<W>)>|
            row_values(rows) == rows_of(windows@, only) && groups(r@) == grouped(
                #[trigger] order::sorted(rows),
            ),
{
    let rows: Vec<(i32, i32, WindowEntry<W>)> = collect_rows(windows, only);
    group_into_workspaces(rows)
}

/// What a save is about.
#[derive(Debug, PartialEq)]
pub enum Scope {
    /// Nothing: a restore is running.
    Nothing,
    /// All workspaces.
    Full,
    /// One workspace.
    Workspace(i32),
}

/// Decides what to save. While a restore holds its lock nothing is saved, as the
/// windows are still coming up.
pub fn run(lock_exists: bool, only: Option<i32>) -> (r: Scope)
    ensures
        r == (if lock_exists {
            Scope::Nothing
        } else {
            match only {
                None => Scope::Full,
                Some(id) => Scope::Workspace(id),
            }
        }),
{
    if lock_exists {
        return Scope::Nothing;
    }
    match only {
        None => Scope::Full,
        Some(id) => Scope::Workspace(id),
    }
}

/// Told once all workspaces have been saved.
pub open spec fn saved_text(name: Seq<char>, windows: nat, workspaces: nat) -> Seq<char> {
    "saved '"@ + name + "' — "@ + text::decimal(windows) + " windows across "@ + text::decimal(
        workspaces,
    ) + " workspaces"@
}

/// The session of all workspaces that were captured, and what to tell.
pub fn run_full<W>(active_workspace: i32, workspaces: Vec<WorkspaceEntry<W>>, name: &str) -> (r: (
    Session<W>,
    String,
))
    ensures
        r.0 == (Session { version: session::SESSION_VERSION, active_workspace, workspaces }),
        r.1@ == saved_text(
            name@,
            session::capped(session::windows_in_all(workspaces@)),
            workspaces@.len(),
        ),
{
    let windows: String = text::usize_text(session::count_windows(&workspaces));
    let count: String = text::usize_text(workspaces.len());
    let head: String = text::join3("saved '", name, "' — ");
    let head: String = text::join3(head.as_str(), windows.as_str(), " windows across ");
    let told: String = text::join3(head.as_str(), count.as_str(), " workspaces");
    (Session { version: session::SESSION_VERSION, active_workspace, workspaces }, told)
}

/// What saving one workspace comes to.
#[derive(Debug, PartialEq)]
pub enum ScopedOutcome {
    /// It had windows, which are written.
    Saved(usize),
    /// It had no windows but an entry, which is taken out.
    Removed,
    /// It had neither: nothing is written.
    NoOp,
}

/// What saving one workspace comes to, given whether it had an entry and how many
/// windows were captured.
pub fn scoped_outcome(had_entry: bool, count: Option<usize>) -> (r: ScopedOutcome)
    ensures
        r == outcome_of(had_entry, count),
{
    match (count, had_entry) {
        (Some(count), _) => ScopedOutcome::Saved(count),
        (None, true) => ScopedOutcome::Removed,
        (None, false) => ScopedOutcome::NoOp,
    }
}

/// What saving one workspace comes to.
pub open spec fn outcome_of(had_entry: bool, count: Option<usize>) -> ScopedOutcome {
    match count {
        Some(n) => ScopedOutcome::Saved(n),
        None => if had_entry {
            ScopedOutcome::Removed
        } else {
            ScopedOutcome::NoOp
        },
    }
}

/// Told once one workspace has been saved.
pub open spec fn scoped_text(outcome: ScopedOutcome, id: i32, name: Seq<char>) -> Seq<char> {
    let number = text::signed_decimal(id as int);
    match outcome {
        ScopedOutcome::Saved(n) => "saved workspace "@ + number + " to '"@ + name + "' — "@
            + text::decimal(n as nat) + " windows (workspace "@ + number + " only)"@,
        ScopedOutcome::Removed => "workspace "@ + number + " has no windows, removed from '"@
            + name + "'"@,
        ScopedOutcome::NoOp => "workspace "@ + number + " has no windows, nothing to save"@,
    }
}

fn scoped_message(outcome: &ScopedOutcome, id: i32, name: &str) -> (r: String)
    ensures
        r@ == scoped_text(*outcome, id, name@),
{
    let number: String = text::i32_text(id);
    match outcome {
        ScopedOutcome::Saved(n) => {
            let count: String = text::usize_text(*n);
            let head: String = text::join3("saved workspace ", number.as_str(), " to '");
            let head: String = text::join3(head.as_str(), name, "' — ");
            let head: String = text::join3(head.as_str(), count.as_str(), " windows (workspace ");
            text::join3(head.as_str(), number.as_str(), " only)")
        },
        ScopedOutcome::Removed => {
            let head: String = text::join3(
                "workspace ",
                number.as_str(),
                " has no windows, removed from '",
            );
            text::join3(head.as_str(), name, "'")
        },
        ScopedOutcome::NoOp => text::join3(
            "workspace ",
            number.as_str(),
            " has no windows, nothing to save",
        ),
    }
}

/// What saving one workspace leads to.
pub struct Scoped<W> {
    pub outcome: ScopedOutcome,
    /// The session with the workspace merged in, to be written unless the outcome
    /// is that there is nothing to save.
    pub session: Session<W>,
    /// What to tell.
    pub message: String,
}

/// The session that one workspace is saved into: the one that is there, else a new
/// one.
pub open spec fn base_session<W>(existing: Option<Session<W>>, id: i32, base: Session<W>) -> bool {
    match existing {
        Some(s) => base == s,
        None => base.version == session::SESSION_VERSION && base.active_workspace == id
            && base.workspaces@.len() == 0,
    }
}

/// Whether the workspaces have an entry for `id`.
pub open spec fn has_entry<W>(workspaces: Seq<WorkspaceEntry<W>>, id: i32) -> bool {
    exists|i: int| 0 <= i < workspaces.len() && (#[trigger] workspaces[i]).workspace == id
}

/// The entry that was captured, if any.
pub open spec fn captured_entry<W>(captured: Seq<WorkspaceEntry<W>>) -> Option<WorkspaceEntry<W>> {
    if captured.len() > 0 {
        Some(captured.last())
    } else {
        None
    }
}

/// The number of windows of an entry.
pub open spec fn entry_count<W>(entry: Option<WorkspaceEntry<W>>) -> Option<usize> {
    match entry {
        Some(e) => Some(e.windows@.len() as usize),
        None => None,
    }
}

fn find_entry<W>(workspaces: &Vec<WorkspaceEntry<W>>, id: i32) -> (r: bool)
    ensures
        r == has_entry(workspaces@, id),
{
    let mut i: usize = 0;
    while i < workspaces.len()
        invariant
            0 <= i <= workspaces@.len(),
            forall|j: int| 0 <= j < i ==> (#[trigger] workspaces@[j]).workspace != id,
        decreases workspaces@.len() - i,
    {
        if workspaces[i].workspace == id {
            return true;
        }
        i += 1;
    }
    false
}

/// Saves what was captured of workspace `id` into a session: the one that is
/// there, or a new one. The other workspaces of the session stay as they are.
pub fn run_scoped<W>(
    existing: Option<Session<W>>,
    captured: Vec<WorkspaceEntry<W>>,
    name: &str,
    id: i32,
) -> (r: Scoped<W>)
    ensures
        exists|base: Session<W>| #[trigger]
            base_session(existing, id, base) && {
                let entry = captured_entry(captured@);
                &&& r.outcome == outcome_of(has_entry(base.workspaces@, id), entry_count(entry))
                &&& session::merges(base.workspaces@, id, entry, r.session.workspaces@)
                &&& r.session.version == base.version
                &&& r.session.active_workspace == base.active_workspace
            },
        r.message@ == scoped_text(r.outcome, id, name@),
{
    let mut captured = captured;
    let entry: Option<WorkspaceEntry<W>> = captured.pop();
    let base: Session<W> = match existing {
        Some(s) => s,
        None => Session {
            version: session::SESSION_VERSION,
            active_workspace: id,
            workspaces: Vec::new(),
        },
    };
    assert(base_session(existing, id, base));
    let had_entry: bool = find_entry(&base.workspaces, id);
    let count: Option<usize> = match &entry {
        Some(e) => Some(e.windows.len()),
        None => None,
    };
    let outcome: ScopedOutcome = scoped_outcome(had_entry, count);
    let mut session: Session<W> = base;
    session.merge_workspace(id, entry);
    let message: String = scoped_message(&outcome, id, name);
    Scoped { outcome, session, message }
}

/// Told where the session that a workspace is to be saved into cannot be read.
pub open spec fn load_refused_text(name: Seq<char>) -> Seq<char> {
    "failed to load existing session '"@ + name + "' — refusing to overwrite it"@
}

/// The message that a session cannot be read and is left as it is.
pub fn load_refused(name: &str) -> (r: String)
    ensures
        r@ == load_refused_text(name@),
{
    text::join3("failed to load existing session '", name, "' — refusing to overwrite it")
}

/// The test whether a row is on workspace `id`.
pub open spec fn is_on<W>(id: i32) -> spec_fn((i32, i32, WindowEntry<W>)) -> bool {
    |row: (i32, i32, WindowEntry<W>)| row.0 == id
}

/// The windows of the rows on workspace `id`, in the order of the rows.
pub open spec fn windows_on<W>(rows: Seq<(i32, i32, WindowEntry<W>)>, id: i32) -> Seq<
    WindowEntry<W>,
> {
    rows.filter(is_on(id)).map_values(|row: (i32, i32, WindowEntry<W>)| row.2)
}

/// Whether there is one group for each workspace of the rows, in ascending order,
/// with the windows of that workspace in the order of the rows.
pub open spec fn is_grouping<W>(
    groups: Seq<Group<W>>,
    rows: Seq<(i32, i32, WindowEntry<W>)>,
) -> bool {
    &&& forall|i: int, j: int|
        0 <= i < j < groups.len() ==> (#[trigger] groups[i]).workspace < (
        #[trigger] groups[j]).workspace
    &&& forall|i: int|
        0 <= i < groups.len() ==> (#[trigger] groups[i]).windows == windows_on(
            rows,
            groups[i].workspace,
        ) && groups[i].windows.len() > 0
    &&& forall|r: int|
        0 <= r < rows.len() ==> exists|i: int|
            0 <= i < groups.len() && (#[trigger] groups[i]).workspace == (#[trigger] rows[r]).0
}

proof fn lemma_windows_on_push<W>(
    rows: Seq<(i32, i32, WindowEntry<W>)>,
    row: (i32, i32, WindowEntry<W>),
    id: i32,
)
    ensures
        windows_on(rows.push(row), id) == (if row.0 == id {
            windows_on(rows, id).push(row.2)
        } else {
            windows_on(rows, id)
        }),
{
    rows.lemma_filter_push(row, is_on(id));
    assert(windows_on(rows.push(row), id) =~= (if row.0 == id {
        windows_on(rows, id).push(row.2)
    } else {
        windows_on(rows, id)
    }));
}

proof fn lemma_none_on<W>(rows: Seq<(i32, i32, WindowEntry<W>)>, id: i32)
    requires
        forall|r: int| 0 <= r < rows.len() ==> (#[trigger] rows[r]).0 != id,
    ensures
        windows_on(rows, id).len() == 0,
{
    rows.lemma_all_neg_filter_empty(is_on(id));
}

proof fn lemma_grouping<W>(rows: Seq<(i32, i32, WindowEntry<W>)>)
    requires
        order::ascending(rows),
    ensures
        is_grouping(grouped(rows), rows),
        rows.len() > 0 ==> grouped(rows).len() > 0 && grouped(rows).last().workspace
            == rows.last().0,
    decreases rows.len(),
{
    if rows.len() > 0 {
        let front = rows.drop_last();
        let row = rows.last();
        assert(front.push(row) =~= rows);
        assert forall|i: int, j: int| 0 <= i < j < front.len() implies (#[trigger] front[i]).rank()
            <= (#[trigger] front[j]).rank() by {
            assert(front[i] == rows[i] && front[j] == rows[j]);
        }
        lemma_grouping(front);
        let before = grouped(front);
        let now = grouped(rows);
        let last = rows.len() - 1;
        assert forall|r: int| 0 <= r < front.len() implies (#[trigger] front[r]).0 <= row.0 by {
            assert(rows[r].rank() <= rows[last].rank());
        }
        if before.len() > 0 {
            assert(front.len() > 0) by {
                if front.len() == 0 {
                    assert(before.len() == 0);
                }
            }
            assert(before.last().workspace == front.last().0);
            assert(before.last().workspace <= row.0);
        }
        let same = before.len() > 0 && before.last().workspace == row.0;
        let top = before.len() - 1;
        assert forall|i: int| 0 <= i < now.len() implies (#[trigger] now[i]).windows == windows_on(
            rows,
            now[i].workspace,
        ) && now[i].windows.len() > 0 by {
            lemma_windows_on_push(front, row, now[i].workspace);
            if i < before.len() && !(same && i == top) {
                assert(now[i] == before[i]);
                if i < top {
                    assert(before[i].workspace < before[top].workspace);
                }
            } else if same {
                assert(before[top].windows == windows_on(front, before[top].workspace));
            } else {
                assert forall|r: int| 0 <= r < front.len() implies (#[trigger] front[r]).0
                    != row.0 by {
                    let g = choose|g: int|
                        0 <= g < before.len() && (#[trigger] before[g]).workspace == front[r].0;
                    assert(before[g].workspace == front[r].0);
                    if g < top {
                        assert(before[g].workspace < before[top].workspace);
                    }
                }
                lemma_none_on(front, row.0);
                assert(windows_on(front, row.0).push(row.2) =~= seq![row.2]);
            }
        }
        assert forall|i: int, j: int| 0 <= i < j < now.len() implies (#[trigger] now[i]).workspace
            < (#[trigger] now[j]).workspace by {
            assert(now[i].workspace == before[i].workspace);
            if j < before.len() {
                assert(now[j].workspace == before[j].workspace);
            } else if i < top {
                assert(before[i].workspace < before[top].workspace);
            }
        }
        assert forall|r: int| 0 <= r < rows.len() implies exists|i: int|
            0 <= i < now.len() && (#[trigger] now[i]).workspace == (#[trigger] rows[r]).0 by {
            if r < front.len() {
                assert(front[r] == rows[r]);
                let g = choose|g: int|
                    0 <= g < before.len() && (#[trigger] before[g]).workspace == front[r].0;
                assert(now[g].workspace == before[g].workspace);
            } else {
                assert(now[now.len() - 1].workspace == row.0);
            }
        }
    }
}

/// What is saved has one entry for each workspace with windows, in ascending order
/// of their ids, with all its windows from left to right.
pub proof fn law_windows_are_saved_by_workspace<W>(rows: Seq<(i32, i32, WindowEntry<W>)>)
    ensures
        is_grouping(grouped(order::sorted(rows)), order::sorted(rows)),
        order::stably_sorted(rows, order::sorted(rows)),
{
    order::law_stable_sort_exists(rows);
    lemma_grouping(order::sorted(rows));
}

/// The number of windows in all groups.
pub open spec fn windows_in<W>(groups: Seq<Group<W>>) -> nat
    decreases groups.len(),
{
    if groups.len() == 0 {
        0
    } else {
        windows_in(groups.drop_last()) + groups.last().windows.len()
    }
}

/// Putting windows together by workspace loses none and adds none.
pub proof fn law_no_window_is_lost<W>(rows: Seq<(i32, i32, WindowEntry<W>)>)
    ensures
        windows_in(grouped(rows)) == rows.len(),
    decreases rows.len(),
{
    if rows.len() > 0 {
        law_no_window_is_lost(rows.drop_last());
        let before = grouped(rows.drop_last());
        let now = grouped(rows);
        if before.len() > 0 && before.last().workspace == rows.last().0 {
            assert(now.drop_last() =~= before.drop_last());
        } else {
            assert(now.drop_last() =~= before);
        }
    }
}

/// A class and its position from the left.
pub struct Placed {
    pub x: int,
    pub class: Seq<char>,
}

impl Ranked for Placed {
    open spec fn rank(&self) -> int {
        self.x
    }
}

/// The open windows without what was found out about them.
pub open spec fn clients_of<W>(windows: Seq<Probed<W>>) -> Seq<HyprClient> {
    windows.map_values(|p: Probed<W>| p.client)
}

spec fn place_row<W>() -> spec_fn((i32, i32, WindowEntry<W>)) -> Placed {
    |row: (i32, i32, WindowEntry<W>)| Placed { x: row.1 as int, class: row.2.class@ }
}

spec fn place_client() -> spec_fn(HyprClient) -> Placed {
    |c: HyprClient| Placed { x: c.x as int, class: c.initial_class@ }
}

proof fn lemma_same_places<W>(
    windows: Seq<Probed<W>>,
    rows: Seq<(i32, i32, WindowEntry<W>)>,
    id: i32,
    only: Option<i32>,
)
    requires
        row_values(rows) == rows_of(windows, only),
        id > 0,
        only matches Some(o) ==> o == id,
        forall|i: int| 0 <= i < windows.len() ==> (#[trigger] windows[i]).exe is Some,
    ensures
        rows.filter(is_on(id)).map_values(place_row()) == clients_of(windows).filter(
            hyprland::tiled_on(id),
        ).map_values(place_client()),
    decreases windows.len(),
{
    reveal_with_fuel(Seq::filter, 1);
    let clients = clients_of(windows);
    if windows.len() == 0 {
        assert(rows.len() == 0) by {
            assert(row_values(rows).len() == rows.len());
        }
        assert(rows.filter(is_on(id)).map_values(place_row()) =~= clients.filter(
            hyprland::tiled_on(id),
        ).map_values(place_client()));
    } else {
        let front = windows.drop_last();
        let p = windows.last();
        assert(windows[windows.len() - 1].exe is Some);
        assert(front.push(p) =~= windows);
        assert(clients.drop_last() =~= clients_of(front));
        assert forall|i: int| 0 <= i < front.len() implies (#[trigger] front[i]).exe is Some by {
            assert(front[i] == windows[i]);
        }
        front.lemma_filter_push(p, is_row(only));
        let own = clients_of(front).filter(hyprland::tiled_on(id));
        if is_row(only)(p) {
            assert(rows_of(windows, only) =~= rows_of(front, only).push(row_of(p)));
            assert(row_values(rows).len() == rows.len());
            assert(row_values(rows.drop_last()) =~= rows_of(front, only)) by {
                assert(row_values(rows).drop_last() =~= row_values(rows.drop_last()));
                assert(rows_of(front, only).push(row_of(p)).drop_last() =~= rows_of(front, only));
            }
            assert(row_value(rows.last()) == row_values(rows).last());
            assert(row_values(rows).last() == row_of(p));
            lemma_same_places(front, rows.drop_last(), id, only);
            let kept = rows.drop_last().filter(is_on(id));
            if p.client.workspace_id == id {
                assert(kept.push(rows.last()).map_values(place_row()) =~= kept.map_values(
                    place_row(),
                ).push(place_row()(rows.last())));
                assert(own.push(p.client).map_values(place_client()) =~= own.map_values(
                    place_client(),
                ).push(place_client()(p.client)));
            }
        } else {
            lemma_same_places(front, rows, id, only);
        }
    }
}

/// What is saved of a workspace, where the programs of all windows are known, has
/// the columns of the workspace in the order in which they stand.
pub proof fn law_columns_are_saved_in_order<W>(
    windows: Seq<Probed<W>>,
    rows: Seq<(i32, i32, WindowEntry<W>)>,
    id: i32,
    only: Option<i32>,
)
    requires
        row_values(rows) == rows_of(windows, only),
        id > 0,
        only matches Some(o) ==> o == id,
        forall|i: int| 0 <= i < windows.len() ==> (#[trigger] windows[i]).exe is Some,
    ensures
        plan::saved_classes(windows_on(order::sorted(rows), id)) == columns::live_classes(
            live::columns_of(clients_of(windows), id),
        ),
        columns::in_order(
            plan::saved_classes(windows_on(order::sorted(rows), id)),
            live::columns_of(clients_of(windows), id),
        ),
{
    let all = order::sorted(rows);
    let ok = |rank: int| id * 0x1_0000_0000 - 0x8000_0000 <= rank < id * 0x1_0000_0000 + 0x8000_0000;
    order::law_stable_sort_exists(rows);
    order::law_sorting_keeps_choices(rows, all, is_on(id), ok);
    let chosen = rows.filter(is_on(id));
    let shift = -(id * 0x1_0000_0000);
    assert forall|i: int| 0 <= i < chosen.len() implies place_row()(#[trigger] chosen[i]).rank()
        == chosen[i].rank() + shift by {
        rows.lemma_filter_pred(is_on(id), i);
    }
    order::law_sorting_keeps_images(chosen, all.filter(is_on(id)), place_row(), shift);
    let tiled = clients_of(windows).filter(hyprland::tiled_on(id));
    order::law_stable_sort_exists(tiled);
    order::law_sorting_keeps_images(tiled, order::sorted(tiled), place_client(), 0);
    lemma_same_places(windows, rows, id, only);
    let left = all.filter(is_on(id)).map_values(place_row());
    let right = order::sorted(tiled).map_values(place_client());
    order::law_stable_sort_is_unique(chosen.map_values(place_row()), left, right);
    let saved = plan::saved_classes(windows_on(all, id));
    let open = columns::live_classes(live::columns_of(clients_of(windows), id));
    assert forall|i: int| 0 <= i < saved.len() implies saved[i] == open[i] by {
        assert(left[i].class == right[i].class);
    }
    assert(saved.len() == left.len() && open.len() == right.len());
    assert(saved =~= open);
    let live = live::columns_of(clients_of(windows), id);
    assert forall|i: int| 0 <= i < saved.len() && i < live.len() implies (#[trigger] live[i]).class
        == saved[i] by {
        assert(open[i] == live[i].class);
    }
}

/// The classes of rows.
pub open spec fn row_classes<W>(rows: Seq<(i32, i32, WindowEntry<W>)>) -> Seq<Seq<char>> {
    rows.map_values(|row: (i32, i32, WindowEntry<W>)| row.2.class@)
}

spec fn count_in_groups<W>(groups: Seq<Group<W>>, class: Seq<char>) -> nat
    decreases groups.len(),
{
    if groups.len() == 0 {
        0
    } else {
        count_in_groups(groups.drop_last(), class) + tally::count_of(
            plan::saved_classes(groups.last().windows),
            class,
        )
    }
}

proof fn lemma_saved_from_the_end<W>(workspaces: Seq<WorkspaceEntry<W>>, class: Seq<char>)
    requires
        workspaces.len() > 0,
    ensures
        plan::saved_in_all(workspaces, class) == plan::saved_in_all(workspaces.drop_last(), class)
            + tally::count_of(plan::saved_classes(workspaces.last().windows@), class),
    decreases workspaces.len(),
{
    let rest = workspaces.skip(1);
    let front = workspaces.drop_last();
    if workspaces.len() == 1 {
        reveal_with_fuel(plan::saved_in_all, 2);
    } else {
        lemma_saved_from_the_end(rest, class);
        assert(front.skip(1) =~= rest.drop_last());
        assert(front[0] == workspaces[0]);
        assert(rest.last() == workspaces.last());
    }
}

proof fn lemma_saved_is_grouped<W>(workspaces: Seq<WorkspaceEntry<W>>, class: Seq<char>)
    ensures
        plan::saved_in_all(workspaces, class) == count_in_groups(groups(workspaces), class),
    decreases workspaces.len(),
{
    if workspaces.len() > 0 {
        lemma_saved_from_the_end(workspaces, class);
        lemma_saved_is_grouped(workspaces.drop_last(), class);
        assert(groups(workspaces).drop_last() =~= groups(workspaces.drop_last()));
    }
}

proof fn lemma_grouping_keeps_counts<W>(rows: Seq<(i32, i32, WindowEntry<W>)>, class: Seq<char>)
    ensures
        count_in_groups(grouped(rows), class) == tally::count_of(row_classes(rows), class),
    decreases rows.len(),
{
    if rows.len() > 0 {
        let front = rows.drop_last();
        let row = rows.last();
        lemma_grouping_keeps_counts(front, class);
        assert(row_classes(rows).drop_last() =~= row_classes(front));
        let before = grouped(front);
        let now = grouped(rows);
        if before.len() > 0 && before.last().workspace == row.0 {
            let had = before.last().windows;
            assert(now.drop_last() =~= before.drop_last());
            assert(plan::saved_classes(had.push(row.2)).drop_last() =~= plan::saved_classes(had));
        } else {
            assert(now.drop_last() =~= before);
            assert(plan::saved_classes(seq![row.2]).drop_last() =~= Seq::<Seq<char>>::empty());
            assert(tally::count_of(Seq::<Seq<char>>::empty(), class) == 0);
        }
    }
}

proof fn lemma_counts_of_same_rows<W>(
    a: Seq<(i32, i32, WindowEntry<W>)>,
    b: Seq<(i32, i32, WindowEntry<W>)>,
    class: Seq<char>,
)
    requires
        a.to_multiset() == b.to_multiset(),
    ensures
        tally::count_of(row_classes(a), class) == tally::count_of(row_classes(b), class),
    decreases a.len(),
{
    broadcast use vstd::seq_lib::group_to_multiset_ensures;

    a.to_multiset_ensures();
    b.to_multiset_ensures();
    assert(a.len() == b.len());
    if a.len() > 0 {
        let x = a.last();
        assert(a.contains(x));
        assert(a.to_multiset().count(x) > 0);
        assert(b.to_multiset().count(x) > 0);
        assert(b.contains(x));
        let k = choose|k: int| 0 <= k < b.len() && b[k] == x;
        let front = a.drop_last();
        assert(front =~= a.remove(a.len() - 1));
        assert(front.to_multiset() =~= a.to_multiset().remove(x));
        assert(b.remove(k).to_multiset() =~= b.to_multiset().remove(x));
        lemma_counts_of_same_rows(front, b.remove(k), class);
        tally::lemma_count_remove(row_classes(b), k, class);
        assert(row_classes(b).remove(k) =~= row_classes(b.remove(k)));
        assert(row_classes(a).drop_last() =~= row_classes(front));
    }
}

proof fn lemma_rows_are_open<W>(
    windows: Seq<Probed<W>>,
    rows: Seq<(i32, i32, WindowEntry<W>)>,
    only: Option<i32>,
    class: Seq<char>,
)
    requires
        row_values(rows) == rows_of(windows, only),
    ensures
        tally::count_of(row_classes(rows), class) <= tally::count_of(
            live::client_classes(clients_of(windows)),
            class,
        ),
    decreases windows.len(),
{
    reveal_with_fuel(Seq::filter, 1);
    assert(row_values(rows).len() == rows.len());
    if windows.len() > 0 {
        let front = windows.drop_last();
        let p = windows.last();
        assert(front.push(p) =~= windows);
        let classes = live::client_classes(clients_of(windows));
        assert(classes.drop_last() =~= live::client_classes(clients_of(front)));
        front.lemma_filter_push(p, is_row(only));
        if is_row(only)(p) {
            assert(rows_of(windows, only) =~= rows_of(front, only).push(row_of(p)));
            assert(row_values(rows).drop_last() =~= row_values(rows.drop_last()));
            assert(rows_of(front, only).push(row_of(p)).drop_last() =~= rows_of(front, only));
            assert(row_value(rows.last()) == row_values(rows).last());
            lemma_rows_are_open(front, rows.drop_last(), only, class);
            assert(row_classes(rows).drop_last() =~= row_classes(rows.drop_last()));
        } else {
            lemma_rows_are_open(front, rows, only, class);
        }
    }
}

/// Restoring a session while all the windows that it was saved from are open
/// launches nothing.
pub proof fn law_restoring_what_is_open_launches_nothing<W>(
    windows: Seq<Probed<W>>,
    rows: Seq<(i32, i32, WindowEntry<W>)>,
    only: Option<i32>,
    workspaces: Seq<WorkspaceEntry<W>>,
    class: Seq<char>,
)
    requires
        row_values(rows) == rows_of(windows, only),
        groups(workspaces) == grouped(order::sorted(rows)),
        windows.len() <= usize::MAX,
    ensures
        plan::missing_in_all(
            workspaces,
            live::class_counts(live::client_classes(clients_of(windows))),
            class,
        ) == 0,
{
    let classes = live::client_classes(clients_of(windows));
    let pre = live::class_counts(classes);
    order::law_stable_sort_exists(rows);
    order::law_stable_sort_keeps_items(rows, order::sorted(rows));
    lemma_saved_is_grouped(workspaces, class);
    lemma_grouping_keeps_counts(order::sorted(rows), class);
    lemma_counts_of_same_rows(order::sorted(rows), rows, class);
    lemma_rows_are_open(windows, rows, only, class);
    tally::lemma_count_bounds(classes, class);
    plan::law_open_windows_count_once(workspaces, pre, class);
}

/// Only tiled windows on ordinary workspaces are saved.
pub proof fn law_only_tiled_windows_are_saved<W>(windows: Seq<Probed<W>>, only: Option<i32>, r: int)
    requires
        0 <= r < rows_of(windows, only).len(),
    ensures
        exists|i: int|
            0 <= i < windows.len() && row_of(#[trigger] windows[i]) == rows_of(windows, only)[r]
                && windows[i].client.mapped && !windows[i].client.floating
                && windows[i].client.workspace_id > 0,
{
    let kept = windows.filter(is_row(only));
    windows.lemma_filter_pred(is_row(only), r);
    assert(kept.contains(kept[r]));
    windows.lemma_filter_contains_rev(is_row(only), kept[r]);
    let i = choose|i: int| 0 <= i < windows.len() && windows[i] == kept[r];
    assert(row_of(windows[i]) == rows_of(windows, only)[r]);
}

/// One open window more is one saved row more, with its class, place, workspace and
/// width as they are, exactly where it is tiled on an ordinary workspace, that is one
/// that is asked for, and its program is known.
pub proof fn law_one_window_more_is_one_row_more<W>(
    windows: Seq<Probed<W>>,
    p: Probed<W>,
    only: Option<i32>,
)
    ensures
        ({
            let before = rows_of(windows, only);
            let now = rows_of(windows.push(p), only);
            let wanted = p.client.mapped && !p.client.floating && p.client.workspace_id > 0 && (only
                is None || only == Some(p.client.workspace_id)) && p.exe is Some;
            &&& !wanted ==> now == before
            &&& wanted ==> {
                &&& now.len() == before.len() + 1
                &&& now.drop_last() == before
                &&& now.last().workspace == p.client.workspace_id
                &&& now.last().x == p.client.x
                &&& now.last().class == p.client.initial_class@
                &&& now.last().col_width == p.col_width
                &&& now.last().launch_args is None
                &&& !text::ends(now.last().exe, " (deleted)"@)
                &&& !text::ends(p.exe->0@, " (deleted)"@) ==> now.last().exe == p.exe->0@
                &&& forall|q: Seq<char>|
                    p.exe->0@ == #[trigger] (q + " (deleted)"@) && !text::ends(q, " (deleted)"@)
                        ==> now.last().exe == q
            }
        }),
{
    reveal_strlit(" (deleted)");
    windows.lemma_filter_push(p, is_row(only));
    let before = rows_of(windows, only);
    let now = rows_of(windows.push(p), only);
    if is_row(only)(p) {
        assert(now =~= before.push(row_of(p)));
        assert(before.push(row_of(p)).drop_last() =~= before);
        text::law_suffixes_are_taken_off(p.exe->0@, " (deleted)"@);
        assert forall|q: Seq<char>|
            p.exe->0@ == #[trigger] (q + " (deleted)"@) && !text::ends(
                q,
                " (deleted)"@,
            ) implies now.last().exe == q by {
            text::law_suffixes_are_taken_off(q, " (deleted)"@);
        }
    } else {
        assert(now =~= before);
    }
}

/// Nothing is saved of nothing.
pub proof fn law_no_windows_are_no_rows<W>(only: Option<i32>)
    ensures
        rows_of(Seq::<Probed<W>>::empty(), only).len() == 0,
{
    reveal_with_fuel(Seq::filter, 1);
}

/// A width is a fraction of the monitor's own width where that is known, and of 1920
/// where it is not.
pub proof fn law_widths_are_of_the_own_monitor(monitors: Map<i32, i32>, monitor: i32)
    ensures
        monitors.contains_key(monitor) ==> width_of_monitor(monitors, monitor) == monitors[monitor],
        !monitors.contains_key(monitor) ==> width_of_monitor(monitors, monitor) == 1920,
{
}

/// Saving one workspace writes its windows where it has some, takes its entry out
/// where it has none, and writes nothing where there is no entry either.
pub proof fn law_scoped_saves_are_told_apart(had_entry: bool, n: usize)
    ensures
        outcome_of(had_entry, Some(n)) == ScopedOutcome::Saved(n),
        outcome_of(true, None) == ScopedOutcome::Removed,
        outcome_of(false, None) == ScopedOutcome::NoOp,
{
}

/// What is told of a save names the session and gives the numbers.
pub proof fn law_saves_are_told(name: Seq<char>, windows: nat, workspaces: nat, id: i32, n: usize)
    ensures
        text::begins(
            saved_text(name, windows, workspaces),
            "saved '"@ + name + "' — "@ + text::decimal(windows) + " windows"@,
        ),
        text::ends(
            saved_text(name, windows, workspaces),
            "across "@ + text::decimal(workspaces) + " workspaces"@,
        ),
        text::begins(
            scoped_text(ScopedOutcome::Saved(n), id, name),
            "saved workspace "@ + text::signed_decimal(id as int) + " to '"@ + name + "' — "@
                + text::decimal(n as nat) + " windows"@,
        ),
        text::begins(
            scoped_text(ScopedOutcome::Removed, id, name),
            "workspace "@ + text::signed_decimal(id as int) + " has no windows, removed"@,
        ),
        text::begins(
            scoped_text(ScopedOutcome::NoOp, id, name),
            "workspace "@ + text::signed_decimal(id as int) + " has no windows, nothing"@,
        ),
{
    reveal_strlit(" windows");
    reveal_strlit(" windows across ");
    reveal_strlit("across ");
    reveal_strlit(" windows (workspace ");
    reveal_strlit(" has no windows, removed");
    reveal_strlit(" has no windows, removed from '");
    reveal_strlit(" has no windows, nothing");
    reveal_strlit(" has no windows, nothing to save");
    reveal_strlit(" ");
    let full = saved_text(name, windows, workspaces);
    let head = "saved '"@ + name + "' — "@ + text::decimal(windows) + " windows"@;
    let tail = "across "@ + text::decimal(workspaces) + " workspaces"@;
    assert(full =~= head + (" "@ + tail));
    assert(full =~= (head + " "@) + tail);
    let number = text::signed_decimal(id as int);
    let one = "saved workspace "@ + number + " to '"@ + name + "' — "@ + text::decimal(n as nat)
        + " windows"@;
    let one_text = scoped_text(ScopedOutcome::Saved(n), id, name);
    assert(one_text =~= one + one_text.skip(one.len() as int));
    let gone = "workspace "@ + number + " has no windows, removed"@;
    let gone_text = scoped_text(ScopedOutcome::Removed, id, name);
    assert(gone_text =~= gone + gone_text.skip(gone.len() as int));
    let none = "workspace "@ + number + " has no windows, nothing"@;
    let none_text = scoped_text(ScopedOutcome::NoOp, id, name);
    assert(none_text =~= none + none_text.skip(none.len() as int));
}

/// A session that cannot be read is named.
pub proof fn law_unreadable_sessions_are_named(name: Seq<char>)
    ensures
        text::begins(
            load_refused_text(name),
            "failed to load existing session '"@ + name + "'"@,
        ),
        text::ends(load_refused_text(name), "refusing to overwrite it"@),
{
    reveal_strlit("'");
    reveal_strlit("' — refusing to overwrite it");
    reveal_strlit("refusing to overwrite it");
    let t = load_refused_text(name);
    let head = "failed to load existing session '"@ + name + "'"@;
    assert(t =~= head + t.skip(head.len() as int));
    assert(t =~= t.take(t.len() - "refusing to overwrite it"@.len())
        + "refusing to overwrite it"@);
}

/// One workspace is saved into the session that is there; where there is none, into
/// one that has no other workspace, and whose focus is on this one.
pub proof fn law_scoped_saves_build_on_what_is_there<W>(
    existing: Option<Session<W>>,
    id: i32,
    base: Session<W>,
)
    requires
        base_session(existing, id, base),
    ensures
        existing is Some ==> Some(base) == existing,
        existing is None ==> base.workspaces@ == Seq::<WorkspaceEntry<W>>::empty()
            && base.active_workspace == id && base.version == 1,
{
}

/// What was captured of the workspace is what is saved, and all its windows are
/// counted; where nothing was captured there is nothing to save, and the entry that
/// the workspace had is taken out.
pub proof fn law_scoped_saves_take_what_was_captured<W>(
    captured: Seq<WorkspaceEntry<W>>,
    entry: WorkspaceEntry<W>,
    workspaces: Seq<WorkspaceEntry<W>>,
    id: i32,
)
    ensures
        captured_entry(captured.push(entry)) == Some(entry),
        captured_entry(Seq::<WorkspaceEntry<W>>::empty()) is None,
        entry_count(Some(entry)) == Some(entry.windows@.len() as usize),
        entry_count(None::<WorkspaceEntry<W>>) is None,
        entry.workspace == id ==> has_entry(workspaces.push(entry), id),
        entry.workspace != id ==> (has_entry(workspaces.push(entry), id) <==> has_entry(
            workspaces,
            id,
        )),
        !has_entry(Seq::<WorkspaceEntry<W>>::empty(), id),
{
    let all = workspaces.push(entry);
    if entry.workspace == id {
        assert(all[workspaces.len() as int].workspace == id);
    } else {
        if has_entry(workspaces, id) {
            let i = choose|i: int|
                0 <= i < workspaces.len() && (#[trigger] workspaces[i]).workspace == id;
            assert(all[i].workspace == id);
        }
        if has_entry(all, id) {
            let i = choose|i: int| 0 <= i < all.len() && (#[trigger] all[i]).workspace == id;
            assert(workspaces[i].workspace == id);
        }
    }
}

/// Nothing is saved while a restore runs; else the workspace that was asked for is
/// saved, or all of them.
pub proof fn law_nothing_is_saved_during_a_restore(
    lock_exists: bool,
    only: Option<i32>,
    r: Scope,
)
    requires
        call_ensures(run, (lock_exists, only), r),
    ensures
        r is Nothing <==> lock_exists,
        !lock_exists && only is Some ==> r == Scope::Workspace(only->0),
        !lock_exists && only is None ==> r is Full,
{
}

/// A full save keeps all workspaces that were captured, in their order, with the one
/// that has the focus.
pub proof fn law_full_saves_keep_everything<W>(
    active_workspace: i32,
    workspaces: Vec<WorkspaceEntry<W>>,
    name: &str,
    r: (Session<W>, String),
)
    requires
        call_ensures(run_full::<W>, (active_workspace, workspaces, name), r),
    ensures
        r.0.workspaces == workspaces,
        r.0.active_workspace == active_workspace,
        r.0.version == 1,
        text::begins(r.1@, "saved '"@ + name@ + "'"@),
{
    reveal_strlit("'");
    reveal_strlit("' — ");
    let head = "saved '"@ + name@ + "'"@;
    assert(r.1@ =~= head + r.1@.skip(head.len() as int));
}

/// Saving one workspace counts the windows that were captured, and keeps the version
/// and the focus of the session that is there.
pub proof fn law_scoped_saves_keep_the_focus<W>(
    session: Session<W>,
    captured: Vec<WorkspaceEntry<W>>,
    name: &str,
    id: i32,
    r: Scoped<W>,
)
    requires
        call_ensures(run_scoped::<W>, (Some(session), captured, name, id), r),
    ensures
        r.session.active_workspace == session.active_workspace,
        r.session.version == session.version,
        captured@.len() > 0 ==> r.outcome == ScopedOutcome::Saved(
            captured@.last().windows@.len() as usize,
        ),
        captured@.len() == 0 ==> (r.outcome is Removed <==> has_entry(session.workspaces@, id)),
        captured@.len() == 0 ==> r.outcome !is Saved,
{
}

} // verus!
