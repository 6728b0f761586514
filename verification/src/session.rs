//! Saved sessions: their data, their versions, and merging one workspace in.
//!
//! Column widths are fractions of a monitor's width. Nothing in a session
//! computes with them, so the types here are generic in the width `W` and carry
//! it through unchanged.

use vstd::prelude::*;
use vstd::string::*;

use crate::order::{self, Ranked, Sortable};
use crate::text;

verus! {

/// The format that this build writes.
pub const SESSION_VERSION: u32 = 1;

/// One saved window.
#[derive(Debug, Clone, PartialEq)]
pub struct WindowEntry<W> {
    pub class: String,
    pub exe: String,
    pub launch_args: Option<Vec<String>>,
    pub col_width: W,
}

/// The saved windows of one workspace, from left to right.
#[derive(Debug, Clone, PartialEq)]
pub struct WorkspaceEntry<W> {
    pub workspace: i32,
    pub windows: Vec<WindowEntry<W>>,
}

/// A saved session.
#[derive(Debug, Clone, PartialEq)]
pub struct Session<W> {
    pub version: u32,
    pub active_workspace: i32,
    pub workspaces: Vec<WorkspaceEntry<W>>,
}

/// What a session file holds. Files from before the version field have none.
#[derive(Debug, Clone, PartialEq)]
pub struct SessionFile<W> {
    pub version: Option<u32>,
    pub active_workspace: i32,
    pub workspaces: Vec<WorkspaceEntry<W>>,
}

/// Why a session file cannot be used.
#[derive(Debug, Clone, PartialEq)]
pub enum SessionError {
    /// The file has a version that only a later build understands.
    TooNew(u32),
    /// No step leads on from this version.
    NoMigration(u32),
}

impl SessionError {
    /// What to tell the user.
    pub open spec fn text(self) -> Seq<char> {
        match self {
            SessionError::TooNew(v) => "session file version "@ + text::decimal(v as nat)
                + " is newer than this build supports (current format is version "@
                + text::decimal(SESSION_VERSION as nat)
                + ")\nUpdate hypr-recall to restore this session."@,
            SessionError::NoMigration(v) => "no migration path from session version "@
                + text::decimal(v as nat),
        }
    }

    /// What to tell the user.
    pub fn message(&self) -> (r: String)
        ensures
            r@ == self.text(),
    {
        match self {
            SessionError::TooNew(v) => {
                let mut s: String = text::join3(
                    "session file version ",
                    text::u64_text(*v as u64).as_str(),
                    " is newer than this build supports (current format is version ",
                );
                s.append(text::u64_text(SESSION_VERSION as u64).as_str());
                s.append(")\nUpdate hypr-recall to restore this session.");
                s
            },
            SessionError::NoMigration(v) => text::join2(
                "no migration path from session version ",
                text::u64_text(*v as u64).as_str(),
            ),
        }
    }
}

impl<W> Ranked for WorkspaceEntry<W> {
    open spec fn rank(&self) -> int {
        self.workspace as int
    }
}

impl<W> Sortable for WorkspaceEntry<W> {
    fn ranks_after(&self, other: &Self) -> (r: bool) {
        self.workspace > other.workspace
    }
}

/// The version that a file without one has.
pub open spec fn stored_version(version: Option<u32>) -> u32 {
    match version {
        Some(v) => v,
        None => 0,
    }
}

/// The session that a file holds, brought up to the current version, or the
/// error where its version is later than that.
pub open spec fn loaded<W>(file: SessionFile<W>) -> Result<Session<W>, SessionError> {
    if stored_version(file.version) > SESSION_VERSION {
        Err(SessionError::TooNew(stored_version(file.version)))
    } else {
        Ok(
            Session {
                version: SESSION_VERSION,
                active_workspace: file.active_workspace,
                workspaces: file.workspaces,
            },
        )
    }
}

/// What a file of the session holds.
pub open spec fn saved<W>(s: Session<W>) -> SessionFile<W> {
    SessionFile {
        version: Some(s.version),
        active_workspace: s.active_workspace,
        workspaces: s.workspaces,
    }
}

/// The test whether an entry is for another workspace than `id`.
pub open spec fn is_other<W>(id: i32) -> spec_fn(WorkspaceEntry<W>) -> bool {
    |w: WorkspaceEntry<W>| w.workspace != id
}

/// Whether `after` is `before` with the entries for workspace `id` taken out and
/// `entry`, where there is one, sorted in by workspace id.
pub open spec fn merges<W>(
    before: Seq<WorkspaceEntry<W>>,
    id: i32,
    entry: Option<WorkspaceEntry<W>>,
    after: Seq<WorkspaceEntry<W>>,
) -> bool {
    match entry {
        None => after == before.filter(is_other(id)),
        Some(e) => order::stably_sorted(before.filter(is_other(id)).push(e), after),
    }
}

impl<W> Session<W> {
    /// Takes up what was read from a session file: rejects versions that are too
    /// new, and brings older ones up to the current version.
    pub fn load(file: SessionFile<W>) -> (r: Result<Self, SessionError>)
        ensures
            r == loaded(file),
    {
        let version: u32 = match file.version {
            Some(v) => v,
            None => 0,
        };
        let mut session = Session {
            version,
            active_workspace: file.active_workspace,
            workspaces: file.workspaces,
        };
        if session.version > SESSION_VERSION {
            return Err(SessionError::TooNew(session.version));
        }
        match migrate(&mut session) {
            Ok(()) => Ok(session),
            Err(e) => Err(e),
        }
    }

    /// What a session file holds of the session.
    pub fn save_to(self) -> (r: SessionFile<W>)
        ensures
            r == saved(self),
    {
        SessionFile {
            version: Some(self.version),
            active_workspace: self.active_workspace,
            workspaces: self.workspaces,
        }
    }

    /// Replaces, inserts or removes the entry for workspace `workspace_id`.
    ///
    /// `None` removes what there is for the workspace. `Some` puts the entry in
    /// its place and leaves the entries sorted by workspace id, whatever order
    /// they were in before: a session file may have been edited by hand.
    pub fn merge_workspace(&mut self, workspace_id: i32, entry: Option<WorkspaceEntry<W>>)
        ensures
            merges(old(self).workspaces@, workspace_id, entry, final(self).workspaces@),
            final(self).version == old(self).version,
            final(self).active_workspace == old(self).active_workspace,
    {
        let ghost was = self.workspaces@;
        let mut kept: Vec<WorkspaceEntry<W>> = Vec::new();
        let ghost mut i: int = 0;
        assert(self.workspaces@.take(0).filter(is_other(workspace_id)) =~= kept@) by {
            reveal_with_fuel(Seq::filter, 1);
        }
        assert(was.skip(0) =~= was);
        while self.workspaces.len() > 0
            invariant
                0 <= i <= was.len(),
                self.workspaces@ == was.skip(i),
                kept@ == was.take(i).filter(is_other(workspace_id)),
                self.version == old(self).version,
                self.active_workspace == old(self).active_workspace,
            decreases self.workspaces@.len(),
        {
            let w: WorkspaceEntry<W> = self.workspaces.remove(0);
            proof {
                assert(was.skip(i).remove(0) =~= was.skip(i + 1));
                assert(was.take(i + 1) =~= was.take(i).push(w));
                was.take(i).lemma_filter_push(w, is_other(workspace_id));
                i = i + 1;
            }
            if w.workspace != workspace_id {
                kept.push(w);
            }
        }
        assert(was.take(was.len() as int) =~= was);
        if let Some(e) = entry {
            kept.push(e);
            order::stable_sort(&mut kept);
        }
        self.workspaces = kept;
    }
}

/// The number of windows on all workspaces together.
pub open spec fn windows_in_all<W>(workspaces: Seq<WorkspaceEntry<W>>) -> nat
    decreases workspaces.len(),
{
    if workspaces.len() == 0 {
        0
    } else {
        windows_in_all(workspaces.drop_last()) + workspaces.last().windows@.len()
    }
}

/// As much of a number as fits into a `usize`.
pub open spec fn capped(n: nat) -> nat {
    if n <= usize::MAX {
        n
    } else {
        usize::MAX as nat
    }
}

/// Counts the windows on all workspaces together.
pub fn count_windows<W>(workspaces: &Vec<WorkspaceEntry<W>>) -> (r: usize)
    ensures
        r == capped(windows_in_all(workspaces@)),
{
    let ghost all = workspaces@;
    let mut total: usize = 0;
    let mut i: usize = 0;
    while i < workspaces.len()
        invariant
            0 <= i <= workspaces@.len(),
            all == workspaces@,
            total == capped(windows_in_all(all.take(i as int))),
        decreases workspaces@.len() - i,
    {
        assert(all.take(i as int + 1).drop_last() =~= all.take(i as int));
        let n: usize = workspaces[i].windows.len();
        total = if n <= usize::MAX - total {
            total + n
        } else {
            usize::MAX
        };
        i += 1;
    }
    assert(all.take(all.len() as int) =~= all);
    total
}

/// Upgrades `session` from its stored version to `SESSION_VERSION`, one step at
/// a time. A step that changes the shape of the data gets an arm of its own.
pub fn migrate<W>(session: &mut Session<W>) -> (r: Result<(), SessionError>)
    ensures
        r == Ok::<(), SessionError>(()),
        final(session).version == (if old(session).version < SESSION_VERSION {
            SESSION_VERSION
        } else {
            old(session).version
        }),
        final(session).active_workspace == old(session).active_workspace,
        final(session).workspaces == old(session).workspaces,
{
    while session.version < SESSION_VERSION
        invariant
            session.active_workspace == old(session).active_workspace,
            session.workspaces == old(session).workspaces,
            old(session).version >= SESSION_VERSION ==> session.version == old(session).version,
            old(session).version < SESSION_VERSION ==> session.version <= SESSION_VERSION,
        decreases SESSION_VERSION - session.version,
    {
        match session.version {
            // The files from before the version field have the shape of version
            // 1: there is nothing to change but the stamp.
            0 => {},
            v => return Err(SessionError::NoMigration(v)),
        }
        session.version = session.version + 1;
    }
    Ok(())
}

// ------------------------------------------------------------------------- laws

proof fn lemma_rank_among<W>(s: Seq<WorkspaceEntry<W>>, id: i32, rank: int)
    requires
        rank != id,
    ensures
        order::with_rank(s.filter(is_other(id)), rank) == order::with_rank(s, rank),
    decreases s.len(),
{
    reveal_with_fuel(Seq::filter, 1);
    if s.len() > 0 {
        let front = s.drop_last();
        lemma_rank_among(front, id, rank);
        front.filter(is_other(id)).lemma_filter_push(s.last(), order::rank_is(rank));
    }
}

proof fn lemma_one_of_rank<W>(s: Seq<WorkspaceEntry<W>>, id: i32)
    ensures
        s.len() == s.filter(is_other(id)).len() + order::with_rank(s, id as int).len(),
    decreases s.len(),
{
    reveal_with_fuel(Seq::filter, 1);
    if s.len() > 0 {
        lemma_one_of_rank(s.drop_last(), id);
    }
}

proof fn lemma_none_of_rank<W>(s: Seq<WorkspaceEntry<W>>, id: i32)
    ensures
        order::with_rank(s.filter(is_other(id)), id as int) == Seq::<WorkspaceEntry<W>>::empty(),
    decreases s.len(),
{
    reveal_with_fuel(Seq::filter, 1);
    if s.len() > 0 {
        let front = s.drop_last();
        lemma_none_of_rank(front, id);
        front.filter(is_other(id)).lemma_filter_push(s.last(), order::rank_is(id as int));
    } else {
        assert(order::with_rank(s.filter(is_other(id)), id as int) =~= Seq::<
            WorkspaceEntry<W>,
        >::empty());
    }
}


/// Loading what was saved of a session at the current version gives that
/// session back.
pub proof fn law_load_gives_back_what_was_saved<W>(s: Session<W>)
    requires
        s.version == SESSION_VERSION,
    ensures
        loaded(saved(s)) == Ok::<Session<W>, SessionError>(s),
{
}

/// A session that was loaded is at the current version, so saving and loading
/// it once more changes nothing.
pub proof fn law_loaded_sessions_round_trip<W>(file: SessionFile<W>)
    ensures
        loaded(file) matches Ok(s) ==> s.version == SESSION_VERSION && loaded(saved(s)) == Ok::<
            Session<W>,
            SessionError,
        >(s),
{
}

/// Merging into one workspace leaves the entries of every other workspace as
/// they were, in the same order.
pub proof fn law_merge_leaves_other_workspaces_alone<W>(
    before: Seq<WorkspaceEntry<W>>,
    id: i32,
    entry: Option<WorkspaceEntry<W>>,
    after: Seq<WorkspaceEntry<W>>,
    other: i32,
)
    requires
        merges(before, id, entry, after),
        other != id,
        entry matches Some(e) ==> e.workspace == id,
    ensures
        order::with_rank(after, other as int) == order::with_rank(before, other as int),
{
    let rest = before.filter(is_other(id));
    lemma_rank_among(before, id, other as int);
    if let Some(e) = entry {
        rest.lemma_filter_push(e, order::rank_is(other as int));
        assert(order::with_rank(after, other as int) == order::with_rank(
            rest.push(e),
            other as int,
        ));
    }
}

/// After a merge the workspace has the merged entry and no other.
pub proof fn law_merge_replaces_the_workspace<W>(
    before: Seq<WorkspaceEntry<W>>,
    id: i32,
    entry: Option<WorkspaceEntry<W>>,
    after: Seq<WorkspaceEntry<W>>,
)
    requires
        merges(before, id, entry, after),
        entry matches Some(e) ==> e.workspace == id,
    ensures
        order::with_rank(after, id as int) == (match entry {
            Some(e) => seq![e],
            None => Seq::empty(),
        }),
{
    let rest = before.filter(is_other(id));
    lemma_none_of_rank(before, id);
    if let Some(e) = entry {
        rest.lemma_filter_push(e, order::rank_is(id as int));
        assert(order::with_rank(after, id as int) == order::with_rank(rest.push(e), id as int));
        assert(order::with_rank(rest, id as int).push(e) =~= seq![e]);
    }
}

/// Merging the same entry a second time changes nothing.
pub proof fn law_merge_is_idempotent<W>(
    before: Seq<WorkspaceEntry<W>>,
    id: i32,
    entry: WorkspaceEntry<W>,
    once: Seq<WorkspaceEntry<W>>,
    twice: Seq<WorkspaceEntry<W>>,
)
    requires
        entry.workspace == id,
        merges(before, id, Some(entry), once),
        merges(once, id, Some(entry), twice),
    ensures
        once == twice,
{
    let rest = once.filter(is_other(id)).push(entry);
    assert forall|rank: int| #[trigger]
        order::with_rank(rest, rank) == order::with_rank(once, rank) by {
        once.filter(is_other(id)).lemma_filter_push(entry, order::rank_is(rank));
        if rank == id {
            law_merge_replaces_the_workspace(before, id, Some(entry), once);
            lemma_none_of_rank(once, id);
            assert(order::with_rank(once.filter(is_other(id)), rank).push(entry) =~= seq![entry]);
        } else {
            lemma_rank_among(once, id, rank);
        }
    }
    lemma_one_of_rank(once, id);
    law_merge_replaces_the_workspace(before, id, Some(entry), once);
    order::law_stable_sort_is_unique(rest, once, twice);
}

/// Merging nothing into a workspace that has no entry changes nothing.
pub proof fn law_removing_an_absent_workspace_changes_nothing<W>(
    before: Seq<WorkspaceEntry<W>>,
    id: i32,
    after: Seq<WorkspaceEntry<W>>,
)
    requires
        merges(before, id, None, after),
        forall|i: int| 0 <= i < before.len() ==> (#[trigger] before[i]).workspace != id,
    ensures
        after == before,
    decreases before.len(),
{
    reveal_with_fuel(Seq::filter, 1);
    if before.len() > 0 {
        let front = before.drop_last();
        law_removing_an_absent_workspace_changes_nothing(front, id, front.filter(is_other(id)));
        assert(front.push(before.last()) =~= before);
    }
}

/// Loading keeps every window of the file where it is, and the workspace that had
/// the focus. Files of later versions are refused with their version, and only they.
pub proof fn law_loading_keeps_the_layout<W>(file: SessionFile<W>)
    ensures
        ({
            let version: u32 = match file.version {
                Some(v) => v,
                None => 0,
            };
            &&& version <= 1 ==> (loaded(file) matches Ok(s) && s.workspaces@ == file.workspaces@
                && s.active_workspace == file.active_workspace && s.version == 1)
            &&& version > 1 ==> loaded(file) == Err::<Session<W>, SessionError>(
                SessionError::TooNew(version),
            )
        }),
{
}

/// Saving writes the layout, the workspace with the focus and the version.
pub proof fn law_saving_keeps_the_layout<W>(s: Session<W>)
    ensures
        saved(s).workspaces@ == s.workspaces@,
        saved(s).active_workspace == s.active_workspace,
        saved(s).version == Some(s.version),
{
}

/// The windows of a workspace more add to the number of all.
pub proof fn law_windows_add_up<W>(workspaces: Seq<WorkspaceEntry<W>>, w: WorkspaceEntry<W>)
    ensures
        windows_in_all(Seq::<WorkspaceEntry<W>>::empty()) == 0,
        windows_in_all(workspaces.push(w)) == windows_in_all(workspaces) + w.windows@.len(),
        windows_in_all(workspaces) <= usize::MAX ==> capped(windows_in_all(workspaces))
            == windows_in_all(workspaces),
{
    assert(workspaces.push(w).drop_last() =~= workspaces);
}

/// Merging an entry leaves the workspaces in ascending order of their ids.
pub proof fn law_merge_leaves_workspaces_sorted<W>(
    before: Seq<WorkspaceEntry<W>>,
    id: i32,
    entry: WorkspaceEntry<W>,
    after: Seq<WorkspaceEntry<W>>,
    i: int,
    j: int,
)
    requires
        merges(before, id, Some(entry), after),
        0 <= i < j < after.len(),
    ensures
        after[i].workspace <= after[j].workspace,
{
    assert(after[i].rank() <= after[j].rank());
}

/// What is told of a session file that cannot be used gives its version.
pub proof fn law_refused_versions_are_told(v: u32)
    ensures
        text::begins(
            SessionError::TooNew(v).text(),
            "session file version "@ + text::decimal(v as nat)
                + " is newer than this build supports (current format is version "@
                + text::decimal(1) + ")"@,
        ),
        SessionError::NoMigration(v).text() == "no migration path from session version "@
            + text::decimal(v as nat),
{
    reveal_strlit(")");
    reveal_strlit(")\nUpdate hypr-recall to restore this session.");
    let t = SessionError::TooNew(v).text();
    let head = "session file version "@ + text::decimal(v as nat)
        + " is newer than this build supports (current format is version "@ + text::decimal(1)
        + ")"@;
    assert(t =~= head + t.skip(head.len() as int));
}

} // verus!
