//! What has to be launched for a workspace.

use vstd::prelude::*;

use crate::collections::{ClassMap, TextSet};
use crate::config::{self, Config, Settings};
use crate::restore::tally;
use crate::session::{Session, WindowEntry, WorkspaceEntry};
use crate::text;

verus! {

/// The classes that restore their own session, as far as is known here.
pub open spec fn builtin_apps() -> Seq<Seq<char>> {
    seq![
        "firefox"@,
        "org.mozilla.firefox"@,
        "zed"@,
        "zed.zed.Zed"@,
        "dev.zed.Zed"@,
        "zeditor"@,
        "chromium"@,
        "google-chrome"@,
        "brave-browser"@,
        "discord"@,
    ]
}

/// The classes that restore their own session, as far as is known here.
pub fn session_restore_apps() -> (r: Vec<&'static str>)
    ensures
        config::words(r@) == builtin_apps(),
{
    let r: Vec<&'static str> = vec![
        "firefox",
        "org.mozilla.firefox",
        "zed",
        "zed.zed.Zed",
        "dev.zed.Zed",
        "zeditor",
        "chromium",
        "google-chrome",
        "brave-browser",
        "discord",
    ];
    assert(config::words(r@) =~= builtin_apps());
    r
}

/// How one class is launched for one workspace.
#[derive(Debug, PartialEq)]
pub struct ClassPlan {
    pub class: String,
    pub exe: String,
    pub launch_args: Vec<String>,
    /// How many windows the workspace had.
    pub saved_count: usize,
    /// How many of them are open already.
    pub pre: usize,
    /// How many of them still have to open.
    pub needed: usize,
    /// Whether the app opens all its windows by itself.
    pub session_restore: bool,
}

/// A plan, as values.
pub struct PlanValue {
    pub class: Seq<char>,
    pub exe: Seq<char>,
    pub launch_args: Seq<Seq<char>>,
    pub saved_count: nat,
    pub pre: nat,
    pub needed: nat,
    pub session_restore: bool,
}

impl View for ClassPlan {
    type V = PlanValue;

    open spec fn view(&self) -> PlanValue {
        PlanValue {
            class: self.class@,
            exe: self.exe@,
            launch_args: text::texts(self.launch_args@),
            saved_count: self.saved_count as nat,
            pre: self.pre as nat,
            needed: self.needed as nat,
            session_restore: self.session_restore,
        }
    }
}

/// The values of a sequence of plans.
pub open spec fn plan_values(plans: Seq<ClassPlan>) -> Seq<PlanValue> {
    plans.map_values(|p: ClassPlan| p@)
}

/// The classes of saved windows, from left to right.
pub open spec fn saved_classes<W>(windows: Seq<WindowEntry<W>>) -> Seq<Seq<char>> {
    windows.map_values(|w: WindowEntry<W>| w.class@)
}

/// How many windows of `class` are open and not yet taken.
pub open spec fn available(pre: Map<Seq<char>, usize>, class: Seq<char>) -> nat {
    if pre.contains_key(class) {
        pre[class] as nat
    } else {
        0
    }
}

/// How many open windows of `class` a workspace takes: as many as it had, if
/// there are so many.
pub open spec fn taken<W>(
    windows: Seq<WindowEntry<W>>,
    pre: Map<Seq<char>, usize>,
    class: Seq<char>,
) -> nat {
    let saved = tally::count_of(saved_classes(windows), class);
    if available(pre, class) < saved {
        available(pre, class)
    } else {
        saved
    }
}

/// The plan for the class of window `i`, which is the first one of that class.
pub open spec fn plan_for<W>(
    windows: Seq<WindowEntry<W>>,
    i: int,
    pre: Map<Seq<char>, usize>,
    settings: Settings,
    extra: Seq<Seq<char>>,
) -> PlanValue {
    let w = windows[i];
    let class = w.class@;
    let saved = tally::count_of(saved_classes(windows), class);
    PlanValue {
        class,
        exe: text::without_suffixes(w.exe@, " (deleted)"@),
        launch_args: config::launch_args_for(
            settings,
            class,
            match w.launch_args {
                Some(args) => Some(text::texts(args@)),
                None => None,
            },
        ),
        saved_count: saved,
        pre: taken(windows, pre, class),
        needed: (saved - taken(windows, pre, class)) as nat,
        session_restore: config::restores_itself(settings, class, builtin_apps(), extra),
    }
}

/// The plans for the classes of the first `n` windows: one for each class, where
/// the class first occurs.
pub open spec fn plans_for<W>(
    windows: Seq<WindowEntry<W>>,
    n: nat,
    pre: Map<Seq<char>, usize>,
    settings: Settings,
    extra: Seq<Seq<char>>,
) -> Seq<PlanValue>
    decreases n,
{
    if n == 0 {
        Seq::empty()
    } else {
        let before = plans_for(windows, (n - 1) as nat, pre, settings, extra);
        if saved_classes(windows).take(n - 1).contains(windows[n - 1].class@) {
            before
        } else {
            before.push(plan_for(windows, n - 1, pre, settings, extra))
        }
    }
}

/// The open windows that are left once the first `n` windows of a workspace have
/// taken theirs. A class of which none is left is taken out.
pub open spec fn left_over<W>(
    windows: Seq<WindowEntry<W>>,
    n: int,
    pre: Map<Seq<char>, usize>,
) -> Map<Seq<char>, usize> {
    let reached = saved_classes(windows).take(n);
    Map::new(
        |c: Seq<char>|
            pre.contains_key(c) && !(reached.contains(c) && taken(windows, pre, c) > 0 && taken(
                windows,
                pre,
                c,
            ) == pre[c]),
        |c: Seq<char>|
            if reached.contains(c) {
                (pre[c] - taken(windows, pre, c)) as usize
            } else {
                pre[c]
            },
    )
}

/// The number of windows of `class`.
fn count_saved<W>(windows: &Vec<WindowEntry<W>>, class: &str) -> (r: usize)
    ensures
        r == tally::count_of(saved_classes(windows@), class@),
{
    let ghost classes = saved_classes(windows@);
    let mut n: usize = 0;
    let mut i: usize = 0;
    assert(classes.take(0) =~= Seq::<Seq<char>>::empty());
    while i < windows.len()
        invariant
            0 <= i <= windows@.len(),
            classes == saved_classes(windows@),
            n == tally::count_of(classes.take(i as int), class@),
            n <= i,
        decreases windows@.len() - i,
    {
        proof {
            tally::lemma_count_step(classes, i as int, class@);
        }
        if text::same(windows[i].class.as_str(), class) {
            n += 1;
        }
        i += 1;
    }
    assert(classes.take(classes.len() as int) =~= classes);
    n
}

/// Plans what has to be launched for a workspace, in the order of its columns,
/// one plan for each class. The first window of a class decides how the class is
/// launched.
///
/// `pre_existing` counts the windows of each class that were open before the
/// restore and that no workspace has taken yet. A workspace takes at most as many
/// as it had. What it takes is gone for the workspaces after it, and what it does
/// not need is left for them.
pub fn plan_workspace<W>(
    ws_entry: &WorkspaceEntry<W>,
    pre_existing: &mut ClassMap<usize>,
    cfg: &Config,
    extra_restore_apps: &[String],
) -> (r: Vec<ClassPlan>)
    ensures
        plan_values(r@) == plans_for(
            ws_entry.windows@,
            ws_entry.windows@.len(),
            old(pre_existing)@,
            cfg@,
            text::texts(extra_restore_apps@),
        ),
        final(pre_existing)@ == left_over(
            ws_entry.windows@,
            ws_entry.windows@.len() as int,
            old(pre_existing)@,
        ),
{
    let windows: &Vec<WindowEntry<W>> = &ws_entry.windows;
    let ghost classes = saved_classes(windows@);
    let ghost pre0 = pre_existing@;
    let ghost extra = text::texts(extra_restore_apps@);
    let builtin: Vec<&'static str> = session_restore_apps();
    let mut processed: TextSet = TextSet::new();
    let mut plans: Vec<ClassPlan> = Vec::new();
    let mut i: usize = 0;
    proof {
        assert(plan_values(plans@) =~= plans_for(windows@, 0, pre0, cfg@, extra));
        assert(classes.take(0) =~= Seq::<Seq<char>>::empty());
        assert(pre0 =~= left_over(windows@, 0, pre0));
        assert(processed@ =~= classes.take(0).to_set());
    }
    while i < windows.len()
        invariant
            0 <= i <= windows@.len(),
            windows == &ws_entry.windows,
            classes == saved_classes(windows@),
            extra == text::texts(extra_restore_apps@),
            config::words(builtin@) == builtin_apps(),
            processed@ == classes.take(i as int).to_set(),
            plan_values(plans@) == plans_for(windows@, i as nat, pre0, cfg@, extra),
            pre_existing@ == left_over(windows@, i as int, pre0),
        decreases windows@.len() - i,
    {
        let window: &WindowEntry<W> = &windows[i];
        let class: &String = &window.class;
        let ghost reached = classes.take(i as int);
        let ghost next = classes.take(i as int + 1);
        proof {
            assert(next =~= reached.push(class@));
            reached.lemma_push_to_set_commute(class@);
        }
        if !processed.insert(class.clone()) {
            proof {
                assert(reached.contains(class@));
                assert(left_over(windows@, i as int + 1, pre0) =~= pre_existing@) by {
                    assert forall|c: Seq<char>| next.contains(c) == reached.contains(c) by {
                        lemma_push_contains(reached, class@, c);
                    }
                }
            }
            i += 1;
            continue ;
        }
        proof {
            assert(!reached.contains(class@));
        }
        let saved_count: usize = count_saved(windows, class.as_str());
        let available: usize = match pre_existing.get(class.as_str()) {
            Some(n) => *n,
            None => 0,
        };
        let pre: usize = if available < saved_count {
            available
        } else {
            saved_count
        };
        assert(available == self::available(pre0, class@));
        assert(pre == taken(windows@, pre0, class@));
        if pre > 0 {
            if available == pre {
                pre_existing.remove(class.as_str());
            } else {
                pre_existing.insert(class.clone(), available - pre);
            }
        }
        proof {
            assert forall|c: Seq<char>| next.contains(c) == (reached.contains(c) || c
                == class@) by {
                lemma_push_contains(reached, class@, c);
            }
            assert(left_over(windows@, i as int + 1, pre0) =~= pre_existing@);
        }
        let launch_args: Vec<String> = copy_args(
            cfg.launch_args(class.as_str(), window.launch_args.as_ref()),
        );
        let ghost was = plan_values(plans@);
        let plan = ClassPlan {
            class: class.clone(),
            exe: text::trim_end_matches(window.exe.as_str(), " (deleted)"),
            launch_args,
            saved_count,
            pre,
            needed: saved_count - pre,
            session_restore: cfg.is_session_restore_app(
                class.as_str(),
                builtin.as_slice(),
                extra_restore_apps,
            ),
        };
        assert(plan@ == plan_for(windows@, i as int, pre0, cfg@, extra));
        plans.push(plan);
        assert(plan_values(plans@) =~= was.push(plan@));
        i += 1;
    }
    assert(classes.take(classes.len() as int) =~= classes);
    plans
}

fn copy_args(args: &[String]) -> (r: Vec<String>)
    ensures
        text::texts(r@) == text::texts(args@),
{
    let mut out: Vec<String> = Vec::new();
    let mut i: usize = 0;
    while i < args.len()
        invariant
            0 <= i <= args@.len(),
            out@.len() == i,
            forall|j: int| 0 <= j < i ==> (#[trigger] out@[j])@ == args@[j]@,
        decreases args@.len() - i,
    {
        let arg: String = args[i].clone();
        out.push(arg);
        i += 1;
    }
    assert(text::texts(out@) =~= text::texts(args@));
    out
}

pub(crate) proof fn lemma_push_contains(s: Seq<Seq<char>>, x: Seq<char>, c: Seq<char>)
    ensures
        s.push(x).contains(c) == (s.contains(c) || c == x),
{
    let t = s.push(x);
    if s.contains(c) {
        let i = choose|i: int| 0 <= i < s.len() && s[i] == c;
        assert(t[i] == c);
    }
    assert(t[s.len() as int] == x);
    if t.contains(c) && c != x {
        let i = choose|i: int| 0 <= i < t.len() && t[i] == c;
        assert(s[i] == c);
    }
}

/// The workspaces of a session that are to be restored: all of them, or those
/// with the id `only`.
pub open spec fn selected<W>(workspaces: Seq<WorkspaceEntry<W>>, only: Option<i32>) -> Seq<
    WorkspaceEntry<W>,
> {
    match only {
        Some(id) => workspaces.filter(has_id(id)),
        None => workspaces,
    }
}

/// Whether an entry is for workspace `id`.
pub open spec fn has_id<W>(id: i32) -> spec_fn(WorkspaceEntry<W>) -> bool {
    |w: WorkspaceEntry<W>| w.workspace == id
}

/// Borrowed entries, as values.
pub open spec fn entries<W>(v: Seq<&WorkspaceEntry<W>>) -> Seq<WorkspaceEntry<W>> {
    v.map_values(|w: &WorkspaceEntry<W>| *w)
}

/// Selects the workspaces to act on: with `only`, that workspace; without it, all
/// of them. `None` where `only` names a workspace that the session does not have.
pub fn select_workspaces<W>(session: &Session<W>, only: Option<i32>) -> (r: Option<
    Vec<&WorkspaceEntry<W>>,
>)
    ensures
        match r {
            Some(v) => entries(v@) == selected(session.workspaces@, only),
            None => true,
        },
        r is None <==> only is Some && selected(session.workspaces@, only).len() == 0,
        r is None <==> only is Some && !exists|i: int|
            0 <= i < session.workspaces@.len() && (#[trigger] session.workspaces@[i]).workspace
                == only->0,
{
    let out: Vec<&WorkspaceEntry<W>> = matching(&session.workspaces, only);
    proof {
        if let Some(id) = only {
            lemma_selects_some(session.workspaces@, id);
        }
    }
    if only.is_some() && out.len() == 0 {
        None
    } else {
        Some(out)
    }
}

proof fn lemma_selects_some<W>(all: Seq<WorkspaceEntry<W>>, id: i32)
    ensures
        all.filter(has_id(id)).len() > 0 <==> exists|i: int|
            0 <= i < all.len() && (#[trigger] all[i]).workspace == id,
    decreases all.len(),
{
    reveal_with_fuel(Seq::filter, 1);
    if all.len() > 0 {
        let front = all.drop_last();
        lemma_selects_some(front, id);
        assert(all.filter(has_id(id)).len() == front.filter(has_id(id)).len() + (if has_id(id)(
            all.last(),
        ) {
            1int
        } else {
            0int
        }));
        if front.filter(has_id(id)).len() > 0 {
            let i = choose|i: int| 0 <= i < front.len() && (#[trigger] front[i]).workspace == id;
            assert(all[i].workspace == id);
        }
        if exists|i: int| 0 <= i < all.len() && (#[trigger] all[i]).workspace == id {
            let i = choose|i: int| 0 <= i < all.len() && (#[trigger] all[i]).workspace == id;
            if i < front.len() {
                assert(front[i].workspace == id);
            }
        }
    }
}

fn matching<W>(workspaces: &Vec<WorkspaceEntry<W>>, only: Option<i32>) -> (r: Vec<
    &WorkspaceEntry<W>,
>)
    ensures
        entries(r@) == selected(workspaces@, only),
{
    let ghost all = workspaces@;
    let mut out: Vec<&WorkspaceEntry<W>> = Vec::new();
    let mut i: usize = 0;
    proof {
        reveal_with_fuel(Seq::filter, 1);
        assert(entries(out@) =~= selected(all.take(0), only));
    }
    while i < workspaces.len()
        invariant
            0 <= i <= workspaces@.len(),
            all == workspaces@,
            entries(out@) == selected(all.take(i as int), only),
        decreases workspaces@.len() - i,
    {
        let w: &WorkspaceEntry<W> = &workspaces[i];
        let ghost was = entries(out@);
        let keep: bool = match only {
            Some(id) => w.workspace == id,
            None => true,
        };
        proof {
            assert(all.take(i as int + 1) =~= all.take(i as int).push(*w));
            if let Some(id) = only {
                all.take(i as int).lemma_filter_push(*w, has_id(id));
            }
        }
        if keep {
            out.push(w);
            assert(entries(out@) =~= was.push(*w));
        }
        i += 1;
    }
    assert(all.take(all.len() as int) =~= all);
    out
}

/// How many windows of `class` still have to open on a workspace.
pub open spec fn missing<W>(
    windows: Seq<WindowEntry<W>>,
    pre: Map<Seq<char>, usize>,
    class: Seq<char>,
) -> nat {
    (tally::count_of(saved_classes(windows), class) - taken(windows, pre, class)) as nat
}

/// How many windows of `class` have to open in all, on the workspaces one after
/// another.
pub open spec fn missing_in_all<W>(
    workspaces: Seq<WorkspaceEntry<W>>,
    pre: Map<Seq<char>, usize>,
    class: Seq<char>,
) -> nat
    decreases workspaces.len(),
{
    if workspaces.len() == 0 {
        0
    } else {
        let windows = workspaces[0].windows@;
        missing(windows, pre, class) + missing_in_all(
            workspaces.skip(1),
            left_over(windows, windows.len() as int, pre),
            class,
        )
    }
}

/// How many windows of `class` the workspaces had in all.
pub open spec fn saved_in_all<W>(workspaces: Seq<WorkspaceEntry<W>>, class: Seq<char>) -> nat
    decreases workspaces.len(),
{
    if workspaces.len() == 0 {
        0
    } else {
        tally::count_of(saved_classes(workspaces[0].windows@), class) + saved_in_all(
            workspaces.skip(1),
            class,
        )
    }
}

/// A plan is for a class of the workspace, counts its windows, and splits them
/// into those that are open and those that are not.
pub open spec fn accounts_for<W>(
    plan: PlanValue,
    windows: Seq<WindowEntry<W>>,
    pre: Map<Seq<char>, usize>,
) -> bool {
    &&& saved_classes(windows).contains(plan.class)
    &&& plan.saved_count == tally::count_of(saved_classes(windows), plan.class)
    &&& plan.saved_count == plan.pre + plan.needed
    &&& plan.needed == missing(windows, pre, plan.class)
}

proof fn lemma_plans_upto<W>(
    windows: Seq<WindowEntry<W>>,
    n: nat,
    pre: Map<Seq<char>, usize>,
    settings: Settings,
    extra: Seq<Seq<char>>,
)
    requires
        n <= windows.len(),
    ensures
        ({
            let plans = plans_for(windows, n, pre, settings, extra);
            &&& forall|i: int|
                0 <= i < plans.len() ==> #[trigger] accounts_for(plans[i], windows, pre)
                    && saved_classes(windows).take(n as int).contains(plans[i].class)
            &&& forall|i: int, j: int|
                0 <= i < j < plans.len() ==> (#[trigger] plans[i]).class != (#[trigger] plans[j]).class
            &&& forall|c: Seq<char>|
                saved_classes(windows).take(n as int).contains(c) ==> exists|i: int|
                    0 <= i < plans.len() && (#[trigger] plans[i]).class == c
        }),
    decreases n,
{
    let classes = saved_classes(windows);
    if n > 0 {
        let m = (n - 1) as nat;
        lemma_plans_upto(windows, m, pre, settings, extra);
        let before = plans_for(windows, m, pre, settings, extra);
        let plans = plans_for(windows, n, pre, settings, extra);
        let class = windows[n - 1].class@;
        assert(classes[n - 1] == class);
        assert(classes.contains(class));
        assert(classes.take(n as int) =~= classes.take(m as int).push(class));
        assert forall|c: Seq<char>| classes.take(n as int).contains(c) == (classes.take(
            m as int,
        ).contains(c) || c == class) by {
            lemma_push_contains(classes.take(m as int), class, c);
        }
        assert forall|c: Seq<char>| classes.take(n as int).contains(c) implies exists|i: int|
            0 <= i < plans.len() && (#[trigger] plans[i]).class == c by {
            if classes.take(m as int).contains(c) {
                let i = choose|i: int| 0 <= i < before.len() && (#[trigger] before[i]).class == c;
                assert(plans[i].class == c);
            } else {
                assert(plans[plans.len() - 1].class == c);
            }
        }
        assert forall|i: int| 0 <= i < plans.len() implies #[trigger] accounts_for(
            plans[i],
            windows,
            pre,
        ) && classes.take(n as int).contains(plans[i].class) by {
            if i < before.len() {
                assert(plans[i] == before[i]);
                assert(accounts_for(before[i], windows, pre));
            }
        }
        assert forall|i: int, j: int| 0 <= i < j < plans.len() implies (#[trigger] plans[i]).class
            != (#[trigger] plans[j]).class by {
            assert(plans[i] == before[i]);
            assert(accounts_for(before[i], windows, pre));
            if j < before.len() {
                assert(plans[j] == before[j]);
            }
        }
    }
}

/// Every class of a workspace gets one plan, and no other class gets one. The
/// plan counts all windows of the class.
pub proof fn law_each_class_is_planned_once<W>(
    windows: Seq<WindowEntry<W>>,
    pre: Map<Seq<char>, usize>,
    settings: Settings,
    extra: Seq<Seq<char>>,
)
    ensures
        ({
            let plans = plans_for(windows, windows.len(), pre, settings, extra);
            &&& forall|i: int|
                0 <= i < plans.len() ==> #[trigger] accounts_for(plans[i], windows, pre)
            &&& forall|i: int, j: int|
                0 <= i < j < plans.len() ==> (#[trigger] plans[i]).class != (#[trigger] plans[j]).class
            &&& forall|c: Seq<char>|
                saved_classes(windows).contains(c) ==> exists|i: int|
                    0 <= i < plans.len() && (#[trigger] plans[i]).class == c
        }),
{
    lemma_plans_upto(windows, windows.len(), pre, settings, extra);
    let classes = saved_classes(windows);
    assert(classes.take(classes.len() as int) =~= classes);
}

/// An open window stands in for one saved window: the workspaces together launch
/// what they had in all, less what was open, and what one of them does not take
/// is there for the next.
pub proof fn law_open_windows_count_once<W>(
    workspaces: Seq<WorkspaceEntry<W>>,
    pre: Map<Seq<char>, usize>,
    class: Seq<char>,
)
    ensures
        missing_in_all(workspaces, pre, class) == (if saved_in_all(workspaces, class) > available(
            pre,
            class,
        ) {
            saved_in_all(workspaces, class) - available(pre, class)
        } else {
            0
        }),
    decreases workspaces.len(),
{
    if workspaces.len() > 0 {
        let windows = workspaces[0].windows@;
        let classes = saved_classes(windows);
        let after = left_over(windows, windows.len() as int, pre);
        assert(classes.take(classes.len() as int) =~= classes);
        tally::lemma_count_bounds(classes, class);
        assert(available(after, class) == available(pre, class) - taken(windows, pre, class));
        law_open_windows_count_once(workspaces.skip(1), after, class);
    }
}

/// Planning one workspace leaves the open windows of other classes alone.
pub proof fn law_other_classes_keep_their_windows<W>(
    windows: Seq<WindowEntry<W>>,
    pre: Map<Seq<char>, usize>,
    class: Seq<char>,
)
    requires
        !saved_classes(windows).contains(class),
    ensures
        available(left_over(windows, windows.len() as int, pre), class) == available(pre, class),
{
    let classes = saved_classes(windows);
    assert(classes.take(classes.len() as int) =~= classes);
}

/// The classes that are known to restore themselves are ten.
pub proof fn law_known_apps_restore_themselves(
    settings: Settings,
    extra: Seq<Seq<char>>,
    class: Seq<char>,
)
    ensures
        class == "firefox"@ || class == "org.mozilla.firefox"@ || class == "zed"@ || class
            == "zed.zed.Zed"@ || class == "dev.zed.Zed"@ || class == "zeditor"@ || class
            == "chromium"@ || class == "google-chrome"@ || class == "brave-browser"@ || class
            == "discord"@ ==> config::restores_itself(settings, class, builtin_apps(), extra),
        builtin_apps().contains(class) ==> class == "firefox"@ || class == "org.mozilla.firefox"@
            || class == "zed"@ || class == "zed.zed.Zed"@ || class == "dev.zed.Zed"@ || class
            == "zeditor"@ || class == "chromium"@ || class == "google-chrome"@ || class
            == "brave-browser"@ || class == "discord"@,
        builtin_apps().len() == 10,
{
    let b = builtin_apps();
    assert(b[0] == "firefox"@ && b[1] == "org.mozilla.firefox"@ && b[2] == "zed"@ && b[3]
        == "zed.zed.Zed"@ && b[4] == "dev.zed.Zed"@ && b[5] == "zeditor"@ && b[6] == "chromium"@
        && b[7] == "google-chrome"@ && b[8] == "brave-browser"@ && b[9] == "discord"@);
    assert(b.contains(b[0]) && b.contains(b[1]) && b.contains(b[2]) && b.contains(b[3])
        && b.contains(b[4]) && b.contains(b[5]) && b.contains(b[6]) && b.contains(b[7])
        && b.contains(b[8]) && b.contains(b[9]));
}

/// Each window in turn adds a plan for its class where it is the first of it, and
/// none where it is not. The plan launches the program that this window ran, without
/// the mark of a deleted file, with the arguments of the configuration or else of this
/// window, and counts all windows of the class.
pub proof fn law_first_windows_decide<W>(
    windows: Seq<WindowEntry<W>>,
    n: nat,
    pre: Map<Seq<char>, usize>,
    settings: Settings,
    extra: Seq<Seq<char>>,
)
    requires
        n < windows.len(),
    ensures
        ({
            let before = plans_for(windows, n, pre, settings, extra);
            let now = plans_for(windows, n + 1, pre, settings, extra);
            let w = windows[n as int];
            let known = exists|j: int| 0 <= j < n && (#[trigger] windows[j]).class@ == w.class@;
            let own = settings.apps.contains_key(w.class@)
                && settings.apps[w.class@].launch_args.len() > 0;
            &&& plans_for(windows, 0, pre, settings, extra).len() == 0
            &&& known ==> now == before
            &&& !known ==> {
                let p = now.last();
                &&& now.len() == before.len() + 1
                &&& now.drop_last() == before
                &&& p.class == w.class@
                &&& !text::ends(p.exe, " (deleted)"@)
                &&& !text::ends(w.exe@, " (deleted)"@) ==> p.exe == w.exe@
                &&& forall|q: Seq<char>|
                    w.exe@ == #[trigger] (q + " (deleted)"@) && !text::ends(q, " (deleted)"@)
                        ==> p.exe == q
                &&& own ==> p.launch_args == settings.apps[w.class@].launch_args
                &&& !own && w.launch_args is Some ==> p.launch_args == text::texts(
                    w.launch_args->0@,
                )
                &&& !own && w.launch_args is None ==> p.launch_args.len() == 0
                &&& p.saved_count == tally::count_of(saved_classes(windows), w.class@)
                &&& p.saved_count == p.pre + p.needed
                &&& p.pre <= available(pre, w.class@)
                &&& p.needed > 0 ==> p.pre == available(pre, w.class@)
                &&& p.session_restore <==> (builtin_apps().contains(w.class@) || extra.contains(
                    w.class@,
                ) || settings.session_restore_apps.contains(w.class@) || (settings.apps.contains_key(
                    w.class@,
                ) && settings.apps[w.class@].session_restore))
            }
        }),
{
    reveal_strlit(" (deleted)");
    let before = plans_for(windows, n, pre, settings, extra);
    let now = plans_for(windows, n + 1, pre, settings, extra);
    let w = windows[n as int];
    let reached = saved_classes(windows).take(n as int);
    if exists|j: int| 0 <= j < n && (#[trigger] windows[j]).class@ == w.class@ {
        let j = choose|j: int| 0 <= j < n && (#[trigger] windows[j]).class@ == w.class@;
        assert(reached[j] == w.class@);
        assert(reached.contains(w.class@));
    }
    if reached.contains(w.class@) {
        let j = choose|j: int| 0 <= j < reached.len() && reached[j] == w.class@;
        assert(windows[j].class@ == w.class@);
    } else {
        assert(now.drop_last() =~= before);
        text::law_suffixes_are_taken_off(w.exe@, " (deleted)"@);
        assert forall|q: Seq<char>|
            w.exe@ == #[trigger] (q + " (deleted)"@) && !text::ends(
                q,
                " (deleted)"@,
            ) implies now.last().exe == q by {
            text::law_suffixes_are_taken_off(q, " (deleted)"@);
        }
    }
}

/// A workspace takes the open windows that it needs, and as many of a class are left
/// as it did not need.
pub proof fn law_what_is_not_needed_is_left<W>(
    windows: Seq<WindowEntry<W>>,
    pre: Map<Seq<char>, usize>,
    class: Seq<char>,
)
    ensures
        ({
            let saved = tally::count_of(saved_classes(windows), class);
            let had: nat = if pre.contains_key(class) {
                pre[class] as nat
            } else {
                0
            };
            let after = left_over(windows, windows.len() as int, pre);
            let left: nat = if after.contains_key(class) {
                after[class] as nat
            } else {
                0
            };
            &&& left == (if had > saved {
                had - saved
            } else {
                0
            })
            &&& missing(windows, pre, class) == (if saved > had {
                saved - had
            } else {
                0
            })
            &&& after.contains_key(class) ==> pre.contains_key(class)
        }),
{
    let classes = saved_classes(windows);
    assert(classes.take(classes.len() as int) =~= classes);
    tally::lemma_count_bounds(classes, class);
}

/// The workspaces of a session are selected in their order: all of them, or those
/// with the id that is asked for.
pub proof fn law_workspaces_are_selected_in_order<W>(
    workspaces: Seq<WorkspaceEntry<W>>,
    w: WorkspaceEntry<W>,
    id: i32,
)
    ensures
        selected(workspaces, None) == workspaces,
        w.workspace == id ==> selected(workspaces.push(w), Some(id)) == selected(
            workspaces,
            Some(id),
        ).push(w),
        w.workspace != id ==> selected(workspaces.push(w), Some(id)) == selected(
            workspaces,
            Some(id),
        ),
        selected(Seq::<WorkspaceEntry<W>>::empty(), Some(id)).len() == 0,
{
    reveal_with_fuel(Seq::filter, 1);
    workspaces.lemma_filter_push(w, has_id(id));
}

} // verus!
