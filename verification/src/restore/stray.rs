//! Windows that opened on the wrong workspace.

use vstd::prelude::*;

use crate::collections::{ClassMap, TextSet};
use crate::hyprland::HyprClient;
use crate::restore::plan;
use crate::session::WorkspaceEntry;

verus! {

/// The workspaces that had a window of `class`, each once, in the order of the
/// session.
pub open spec fn homes<W>(workspaces: Seq<WorkspaceEntry<W>>, class: Seq<char>) -> Seq<i32>
    decreases workspaces.len(),
{
    if workspaces.len() == 0 {
        Seq::empty()
    } else {
        let before = homes(workspaces.drop_last(), class);
        with_home(
            before,
            workspaces.last().workspace,
            plan::saved_classes(workspaces.last().windows@).contains(class),
        )
    }
}

/// `before` with one more workspace, if it had the class and is not in it yet.
pub open spec fn with_home(before: Seq<i32>, id: i32, had: bool) -> Seq<i32> {
    if had && !before.contains(id) {
        before.push(id)
    } else {
        before
    }
}

/// The workspaces that a map gives for each class.
pub open spec fn homes_by(map: Map<Seq<char>, Vec<i32>>) -> spec_fn(Seq<char>) -> Seq<i32> {
    |c: Seq<char>|
        if map.contains_key(c) {
            map[c]@
        } else {
            Seq::empty()
        }
}

/// Whether `map` gives for every class the workspaces in `of`, and has no entry
/// where there are none.
spec fn maps_to(
    map: Map<Seq<char>, Vec<i32>>,
    of: spec_fn(Seq<char>) -> Seq<i32>,
) -> bool {
    forall|c: Seq<char>|
        (#[trigger] map.contains_key(c) <==> of(c).len() > 0) && (map.contains_key(c) ==> map[c]@
            == of(c))
}

/// The workspaces that each class belongs on.
pub open spec fn homes_in<W>(workspaces: Seq<WorkspaceEntry<W>>) -> spec_fn(Seq<char>) -> Seq<i32> {
    |c: Seq<char>| homes(workspaces, c)
}

pub(crate) fn has_id(ids: &Vec<i32>, id: i32) -> (r: bool)
    ensures
        r == ids@.contains(id),
{
    let mut i: usize = 0;
    while i < ids.len()
        invariant
            0 <= i <= ids@.len(),
            forall|j: int| 0 <= j < i ==> ids@[j] != id,
        decreases ids@.len() - i,
    {
        if ids[i] == id {
            return true;
        }
        i += 1;
    }
    false
}

fn copy_ids(ids: &Vec<i32>) -> (r: Vec<i32>)
    ensures
        r@ == ids@,
{
    let mut out: Vec<i32> = Vec::new();
    let mut i: usize = 0;
    while i < ids.len()
        invariant
            0 <= i <= ids@.len(),
            out@ == ids@.take(i as int),
        decreases ids@.len() - i,
    {
        out.push(ids[i]);
        assert(out@ =~= ids@.take(i as int + 1));
        i += 1;
    }
    assert(ids@.take(ids@.len() as int) =~= ids@);
    out
}

/// The workspaces that each class belongs on while the first `k` windows of the
/// next workspace are taken in.
spec fn homes_with<W>(
    before: Seq<WorkspaceEntry<W>>,
    next: WorkspaceEntry<W>,
    k: int,
) -> spec_fn(Seq<char>) -> Seq<i32> {
    |c: Seq<char>|
        with_home(
            homes(before, c),
            next.workspace,
            plan::saved_classes(next.windows@).take(k).contains(c),
        )
}

fn add_homes<W>(
    map: &mut ClassMap<Vec<i32>>,
    entry: &WorkspaceEntry<W>,
    Ghost(before): Ghost<Seq<WorkspaceEntry<W>>>,
)
    requires
        maps_to(old(map)@, homes_in(before)),
    ensures
        maps_to(final(map)@, homes_in(before.push(*entry))),
{
    let ghost classes = plan::saved_classes(entry.windows@);
    let mut k: usize = 0;
    proof {
        assert(classes.take(0) =~= Seq::<Seq<char>>::empty());
        assert(maps_to(map@, homes_with(before, *entry, 0))) by {
            assert forall|c: Seq<char>|
                (#[trigger] map@.contains_key(c) <==> homes_with(before, *entry, 0)(c).len() > 0)
                    && (map@.contains_key(c) ==> map@[c]@ == homes_with(before, *entry, 0)(c)) by {
                assert(homes_with(before, *entry, 0)(c) == homes_in(before)(c));
            }
        }
    }
    while k < entry.windows.len()
        invariant
            0 <= k <= entry.windows@.len(),
            classes == plan::saved_classes(entry.windows@),
            maps_to(map@, homes_with(before, *entry, k as int)),
        decreases entry.windows@.len() - k,
    {
        let class: &String = &entry.windows[k].class;
        let ghost was = map@;
        let ghost id = entry.workspace;
        let known: Option<Vec<i32>> = match map.get(class.as_str()) {
            Some(ids) => Some(copy_ids(ids)),
            None => None,
        };
        let mut ids: Vec<i32> = match known {
            Some(ids) => ids,
            None => Vec::new(),
        };
        let ghost had = ids@;
        assert(had == homes_with(before, *entry, k as int)(class@)) by {
            if !was.contains_key(class@) {
                assert(had =~= homes_with(before, *entry, k as int)(class@));
            }
        }
        if !has_id(&ids, entry.workspace) {
            ids.push(entry.workspace);
        }
        let ghost now = ids@;
        map.insert(class.clone(), ids);
        proof {
            let reached = classes.take(k as int);
            let next = classes.take(k as int + 1);
            assert(next =~= reached.push(class@));
            assert forall|c: Seq<char>|
                (#[trigger] map@.contains_key(c) <==> homes_with(before, *entry, k as int + 1)(
                    c,
                ).len() > 0) && (map@.contains_key(c) ==> map@[c]@ == homes_with(
                    before,
                    *entry,
                    k as int + 1,
                )(c)) by {
                plan::lemma_push_contains(reached, class@, c);
                assert(was.contains_key(c) <==> homes_with(before, *entry, k as int)(c).len() > 0);
                if c == class@ {
                    let first = homes(before, c);
                    assert(next.contains(c));
                    if !first.contains(id) {
                        assert(first.push(id)[first.len() as int] == id);
                        assert(first.push(id).contains(id));
                    }
                    assert(now == with_home(first, id, true));
                    if first.contains(id) {
                        assert(first.len() > 0);
                    }
                }
            }
        }
        k += 1;
    }
    proof {
        assert(classes.take(classes.len() as int) =~= classes);
        let after = before.push(*entry);
        assert(after.drop_last() =~= before);
        assert forall|c: Seq<char>|
            (#[trigger] map@.contains_key(c) <==> homes_in(after)(c).len() > 0) && (
            map@.contains_key(c) ==> map@[c]@ == homes_in(after)(c)) by {
            assert(homes_with(before, *entry, classes.len() as int)(c) == homes_in(after)(c));
        }
    }
}

/// The workspaces that each class belongs on, in the order of the session. A
/// class can belong on more than one.
pub fn expected_workspaces<W>(workspaces: &Vec<&WorkspaceEntry<W>>) -> (r: ClassMap<Vec<i32>>)
    ensures
        homes_by(r@) == homes_in(plan::entries(workspaces@)),
{
    let ghost all = plan::entries(workspaces@);
    let mut map: ClassMap<Vec<i32>> = ClassMap::new();
    let mut i: usize = 0;
    assert(maps_to(map@, homes_in(all.take(0))));
    while i < workspaces.len()
        invariant
            0 <= i <= workspaces@.len(),
            all == plan::entries(workspaces@),
            maps_to(map@, homes_in(all.take(i as int))),
        decreases workspaces@.len() - i,
    {
        add_homes(&mut map, workspaces[i], Ghost(all.take(i as int)));
        assert(all.take(i as int).push(*workspaces@[i as int]) =~= all.take(i as int + 1));
        i += 1;
    }
    proof {
        assert(all.take(all.len() as int) =~= all);
        assert forall|c: Seq<char>| homes_by(map@)(c) == #[trigger] homes(all, c) by {
            assert(map@.contains_key(c) <==> homes_in(all)(c).len() > 0);
            if !map@.contains_key(c) {
                assert(homes_by(map@)(c) =~= homes(all, c));
            }
        }
        assert(homes_by(map@) =~= homes_in(all));
    }
    map
}

/// The workspace that a window is to be moved to, if it is to be moved at all.
pub open spec fn stray_home(
    client: HyprClient,
    homes: spec_fn(Seq<char>) -> Seq<i32>,
    pre_existing: Set<Seq<char>>,
) -> Option<i32> {
    let valid = homes(client.initial_class@);
    if client.floating || client.workspace_id <= 0 {
        None
    } else if pre_existing.contains(client.address@) {
        None
    } else if valid.contains(client.workspace_id) {
        None
    } else if valid.len() == 0 {
        None
    } else {
        Some(valid[0])
    }
}

/// Decides whether a window strayed, and gives the workspace that it belongs on.
///
/// A window that was open before the restore is left alone, as it may be where it
/// is on purpose. So is a floating one, which is no part of the layout, and one on
/// a special workspace, whose id is negative and which no session knows.
pub fn stray_target(
    client: &HyprClient,
    class_to_ws: &ClassMap<Vec<i32>>,
    pre_existing: &TextSet,
) -> (r: Option<i32>)
    ensures
        r == stray_home(*client, homes_by(class_to_ws@), pre_existing@),
{
    if client.floating || client.workspace_id <= 0 {
        return None;
    }
    if pre_existing.contains(client.address.as_str()) {
        return None;
    }
    match class_to_ws.get(client.initial_class.as_str()) {
        None => None,
        Some(valid) => {
            if has_id(valid, client.workspace_id) {
                return None;
            }
            if valid.len() == 0 {
                None
            } else {
                Some(valid[0])
            }
        },
    }
}

/// A window that strayed: where it is, and where it belongs.
pub struct Stray {
    pub address: String,
    pub class: String,
    pub from: i32,
    pub target: i32,
}

/// A window that strayed, as values.
pub struct StrayValue {
    pub address: Seq<char>,
    pub class: Seq<char>,
    pub from: i32,
    pub target: i32,
}

impl View for Stray {
    type V = StrayValue;

    open spec fn view(&self) -> StrayValue {
        StrayValue {
            address: self.address@,
            class: self.class@,
            from: self.from,
            target: self.target,
        }
    }
}

/// The values of a sequence of windows that strayed.
pub open spec fn stray_values(strays: Seq<Stray>) -> Seq<StrayValue> {
    strays.map_values(|s: Stray| s@)
}

/// The windows that strayed, each with the workspace that it belongs on.
pub open spec fn strays(
    clients: Seq<HyprClient>,
    homes: spec_fn(Seq<char>) -> Seq<i32>,
    pre_existing: Set<Seq<char>>,
) -> Seq<StrayValue>
    decreases clients.len(),
{
    if clients.len() == 0 {
        Seq::empty()
    } else {
        let before = strays(clients.drop_last(), homes, pre_existing);
        match stray_home(clients.last(), homes, pre_existing) {
            Some(target) => before.push(
                StrayValue {
                    address: clients.last().address@,
                    class: clients.last().initial_class@,
                    from: clients.last().workspace_id,
                    target,
                },
            ),
            None => before,
        }
    }
}

/// Finds the windows that strayed.
pub fn find_strays(
    clients: &Vec<HyprClient>,
    class_to_ws: &ClassMap<Vec<i32>>,
    pre_existing: &TextSet,
) -> (r: Vec<Stray>)
    ensures
        stray_values(r@) == strays(clients@, homes_by(class_to_ws@), pre_existing@),
{
    let ghost all = clients@;
    let mut out: Vec<Stray> = Vec::new();
    let mut i: usize = 0;
    assert(stray_values(out@) =~= strays(all.take(0), homes_by(class_to_ws@), pre_existing@));
    while i < clients.len()
        invariant
            0 <= i <= clients@.len(),
            all == clients@,
            stray_values(out@) == strays(
                all.take(i as int),
                homes_by(class_to_ws@),
                pre_existing@,
            ),
        decreases clients@.len() - i,
    {
        assert(all.take(i as int + 1).drop_last() =~= all.take(i as int));
        if let Some(target) = stray_target(&clients[i], class_to_ws, pre_existing) {
            let ghost was = stray_values(out@);
            let c: &HyprClient = &clients[i];
            let s = Stray {
                address: c.address.clone(),
                class: c.initial_class.clone(),
                from: c.workspace_id,
                target,
            };
            out.push(s);
            assert(stray_values(out@) =~= was.push(s@));
        }
        i += 1;
    }
    assert(all.take(all.len() as int) =~= all);
    out
}

proof fn lemma_homes_are_restored<W>(workspaces: Seq<WorkspaceEntry<W>>, class: Seq<char>, i: int)
    requires
        0 <= i < homes(workspaces, class).len(),
    ensures
        exists|k: int|
            0 <= k < workspaces.len() && (#[trigger] workspaces[k]).workspace == homes(
                workspaces,
                class,
            )[i] && plan::saved_classes(workspaces[k].windows@).contains(class),
    decreases workspaces.len(),
{
    let front = workspaces.drop_last();
    let before = homes(front, class);
    if i < before.len() {
        lemma_homes_are_restored(front, class, i);
        let k = choose|k: int|
            0 <= k < front.len() && (#[trigger] front[k]).workspace == before[i]
                && plan::saved_classes(front[k].windows@).contains(class);
        assert(workspaces[k] == front[k]);
    } else {
        let k = workspaces.len() - 1;
        assert(workspaces[k].workspace == homes(workspaces, class)[i]);
    }
}

/// A stray window is moved to a workspace that is being restored and that had a
/// window of its class.
pub proof fn law_strays_go_where_their_class_was<W>(
    client: HyprClient,
    workspaces: Seq<WorkspaceEntry<W>>,
    pre_existing: Set<Seq<char>>,
)
    requires
        stray_home(client, homes_in(workspaces), pre_existing) is Some,
    ensures
        exists|k: int|
            0 <= k < workspaces.len() && (#[trigger] workspaces[k]).workspace == stray_home(
                client,
                homes_in(workspaces),
                pre_existing,
            )->0 && plan::saved_classes(workspaces[k].windows@).contains(client.initial_class@),
{
    lemma_homes_are_restored(workspaces, client.initial_class@, 0);
}

/// Restoring one workspace moves windows to that workspace only.
pub proof fn law_one_workspace_gathers_alone<W>(
    client: HyprClient,
    all: Seq<WorkspaceEntry<W>>,
    only: i32,
    pre_existing: Set<Seq<char>>,
)
    ensures
        stray_home(
            client,
            homes_in(plan::selected(all, Some(only))),
            pre_existing,
        ) matches Some(target) ==> target == only,
{
    let workspaces = plan::selected(all, Some(only));
    if let Some(target) = stray_home(client, homes_in(workspaces), pre_existing) {
        law_strays_go_where_their_class_was(client, workspaces, pre_existing);
        let k = choose|k: int|
            0 <= k < workspaces.len() && (#[trigger] workspaces[k]).workspace == target
                && plan::saved_classes(workspaces[k].windows@).contains(client.initial_class@);
        all.lemma_filter_pred(plan::has_id(only), k);
    }
}

/// What was open before the restore, what floats and what is on a special
/// workspace is never moved.
pub proof fn law_other_windows_are_left_alone(
    client: HyprClient,
    homes: spec_fn(Seq<char>) -> Seq<i32>,
    pre_existing: Set<Seq<char>>,
)
    requires
        pre_existing.contains(client.address@) || client.floating || client.workspace_id <= 0,
    ensures
        stray_home(client, homes, pre_existing) is None,
{
}

/// A window that was moved has not strayed any more.
pub proof fn law_moved_windows_stay(
    client: HyprClient,
    homes: spec_fn(Seq<char>) -> Seq<i32>,
    pre_existing: Set<Seq<char>>,
)
    requires
        stray_home(client, homes, pre_existing) is Some,
    ensures
        ({
            let target = stray_home(client, homes, pre_existing)->0;
            let moved = HyprClient { workspace_id: target, ..client };
            stray_home(moved, homes, pre_existing) is None
        }),
{
    let ids = homes(client.initial_class@);
    assert(ids.contains(ids[0]));
}

/// What is moved was not open before the restore.
pub proof fn law_only_new_windows_are_moved(
    clients: Seq<HyprClient>,
    homes: spec_fn(Seq<char>) -> Seq<i32>,
    pre_existing: Set<Seq<char>>,
    i: int,
)
    requires
        0 <= i < strays(clients, homes, pre_existing).len(),
    ensures
        !pre_existing.contains(strays(clients, homes, pre_existing)[i].address),
    decreases clients.len(),
{
    let before = strays(clients.drop_last(), homes, pre_existing);
    if i < before.len() {
        law_only_new_windows_are_moved(clients.drop_last(), homes, pre_existing, i);
    }
}

/// A window that is new, tiled and on an ordinary workspace that its class was not on
/// is moved, to the first workspace of the session that had its class.
pub proof fn law_new_windows_elsewhere_are_moved<W>(
    client: HyprClient,
    workspaces: Seq<WorkspaceEntry<W>>,
    pre_existing: Set<Seq<char>>,
    k: int,
)
    requires
        !client.floating,
        client.workspace_id > 0,
        !pre_existing.contains(client.address@),
        0 <= k < workspaces.len(),
        plan::saved_classes(workspaces[k].windows@).contains(client.initial_class@),
        forall|j: int|
            0 <= j < k ==> !plan::saved_classes((#[trigger] workspaces[j]).windows@).contains(
                client.initial_class@,
            ),
        forall|j: int|
            0 <= j < workspaces.len() && (#[trigger] workspaces[j]).workspace
                == client.workspace_id ==> !plan::saved_classes(workspaces[j].windows@).contains(
                client.initial_class@,
            ),
    ensures
        stray_home(client, homes_in(workspaces), pre_existing) == Some(workspaces[k].workspace),
{
    let class = client.initial_class@;
    let ids = homes(workspaces, class);
    lemma_first_home(workspaces, class, k);
    if ids.contains(client.workspace_id) {
        let i = choose|i: int| 0 <= i < ids.len() && ids[i] == client.workspace_id;
        lemma_homes_are_restored(workspaces, class, i);
        let j = choose|j: int|
            0 <= j < workspaces.len() && (#[trigger] workspaces[j]).workspace == ids[i]
                && plan::saved_classes(workspaces[j].windows@).contains(class);
        assert(workspaces[j].workspace == client.workspace_id);
    }
}

proof fn lemma_first_home<W>(workspaces: Seq<WorkspaceEntry<W>>, class: Seq<char>, k: int)
    requires
        0 <= k < workspaces.len(),
        plan::saved_classes(workspaces[k].windows@).contains(class),
        forall|j: int|
            0 <= j < k ==> !plan::saved_classes((#[trigger] workspaces[j]).windows@).contains(class),
    ensures
        homes(workspaces, class).len() > 0,
        homes(workspaces, class)[0] == workspaces[k].workspace,
    decreases workspaces.len(),
{
    let front = workspaces.drop_last();
    if k < front.len() {
        assert(front[k] == workspaces[k]);
        assert forall|j: int| 0 <= j < k implies !plan::saved_classes(
            (#[trigger] front[j]).windows@,
        ).contains(class) by {
            assert(front[j] == workspaces[j]);
        }
        lemma_first_home(front, class, k);
    } else {
        assert forall|j: int| 0 <= j < front.len() implies !plan::saved_classes(
            (#[trigger] front[j]).windows@,
        ).contains(class) by {
            assert(front[j] == workspaces[j]);
        }
        lemma_no_home(front, class);
    }
}

proof fn lemma_no_home<W>(workspaces: Seq<WorkspaceEntry<W>>, class: Seq<char>)
    requires
        forall|j: int|
            0 <= j < workspaces.len() ==> !plan::saved_classes(
                (#[trigger] workspaces[j]).windows@,
            ).contains(class),
    ensures
        homes(workspaces, class).len() == 0,
    decreases workspaces.len(),
{
    if workspaces.len() > 0 {
        let front = workspaces.drop_last();
        assert forall|j: int| 0 <= j < front.len() implies !plan::saved_classes(
            (#[trigger] front[j]).windows@,
        ).contains(class) by {
            assert(front[j] == workspaces[j]);
        }
        lemma_no_home(front, class);
        assert(workspaces[workspaces.len() - 1] == workspaces.last());
    }
}

/// A class that no workspace had gives no reason to move a window, and neither does a
/// workspace that had it.
pub proof fn law_windows_at_home_stay<W>(
    client: HyprClient,
    workspaces: Seq<WorkspaceEntry<W>>,
    pre_existing: Set<Seq<char>>,
    k: int,
)
    ensures
        0 <= k < workspaces.len() && workspaces[k].workspace == client.workspace_id
            && plan::saved_classes(workspaces[k].windows@).contains(client.initial_class@)
            ==> stray_home(client, homes_in(workspaces), pre_existing) is None,
        (forall|j: int|
            0 <= j < workspaces.len() ==> !plan::saved_classes(
                (#[trigger] workspaces[j]).windows@,
            ).contains(client.initial_class@)) ==> stray_home(
            client,
            homes_in(workspaces),
            pre_existing,
        ) is None,
{
    let class = client.initial_class@;
    if 0 <= k < workspaces.len() && workspaces[k].workspace == client.workspace_id
        && plan::saved_classes(workspaces[k].windows@).contains(class) {
        lemma_is_home(workspaces, class, k);
    }
    if forall|j: int|
        0 <= j < workspaces.len() ==> !plan::saved_classes(
            (#[trigger] workspaces[j]).windows@,
        ).contains(class) {
        lemma_no_home(workspaces, class);
    }
}

proof fn lemma_is_home<W>(workspaces: Seq<WorkspaceEntry<W>>, class: Seq<char>, k: int)
    requires
        0 <= k < workspaces.len(),
        plan::saved_classes(workspaces[k].windows@).contains(class),
    ensures
        homes(workspaces, class).contains(workspaces[k].workspace),
    decreases workspaces.len(),
{
    let front = workspaces.drop_last();
    let before = homes(front, class);
    let now = homes(workspaces, class);
    if k < front.len() {
        assert(front[k] == workspaces[k]);
        lemma_is_home(front, class, k);
        let i = choose|i: int| 0 <= i < before.len() && before[i] == workspaces[k].workspace;
        assert(now[i] == before[i]);
    } else if !before.contains(workspaces[k].workspace) {
        assert(now[before.len() as int] == workspaces[k].workspace);
    }
}

/// Each open window in turn is a stray where it is to be moved, and is told with its
/// own address, class, place and home.
pub proof fn law_strays_are_the_windows_to_move(
    clients: Seq<HyprClient>,
    c: HyprClient,
    homes: spec_fn(Seq<char>) -> Seq<i32>,
    pre_existing: Set<Seq<char>>,
)
    ensures
        ({
            let before = strays(clients, homes, pre_existing);
            let now = strays(clients.push(c), homes, pre_existing);
            &&& strays(Seq::empty(), homes, pre_existing).len() == 0
            &&& match stray_home(c, homes, pre_existing) {
                None => now == before,
                Some(target) => {
                    &&& now.len() == before.len() + 1
                    &&& now.drop_last() == before
                    &&& now.last().address == c.address@
                    &&& now.last().class == c.initial_class@
                    &&& now.last().from == c.workspace_id
                    &&& now.last().target == target
                },
            }
        }),
{
    let before = strays(clients, homes, pre_existing);
    let now = strays(clients.push(c), homes, pre_existing);
    assert(clients.push(c).drop_last() =~= clients);
    if stray_home(c, homes, pre_existing) is Some {
        assert(now.drop_last() =~= before);
    }
}

} // verus!
