//! Showing what a restore would do.

use vstd::prelude::*;

use crate::collections::ClassMap;
use crate::config::{Config, Settings};
use crate::desktop_entry::{self, DesktopFile};
use crate::hyprland::HyprClient;
use crate::restore::plan::{self, ClassPlan, PlanValue};
use crate::restore::protocol::{QueryValue, ReplyValue};
use crate::restore::run::{self, RestoreState, StageValue};
use crate::restore::{laws, live, messages};
use crate::session::{Session, WorkspaceEntry};
use crate::text;

verus! {

/// The open windows that are left once the workspaces have taken theirs, one
/// after another.
pub open spec fn left_after<W>(
    workspaces: Seq<WorkspaceEntry<W>>,
    pre: Map<Seq<char>, usize>,
) -> Map<Seq<char>, usize>
    decreases workspaces.len(),
{
    if workspaces.len() == 0 {
        pre
    } else {
        let windows = workspaces.last().windows@;
        plan::left_over(
            windows,
            windows.len() as int,
            left_after(workspaces.drop_last(), pre),
        )
    }
}

/// The plans for workspace `k` once those before it have been planned.
pub open spec fn plans_at<W>(
    workspaces: Seq<WorkspaceEntry<W>>,
    k: int,
    pre: Map<Seq<char>, usize>,
    settings: Settings,
    extra: Seq<Seq<char>>,
) -> Seq<PlanValue> {
    let windows = workspaces[k].windows@;
    plan::plans_for(
        windows,
        windows.len(),
        left_after(workspaces.take(k), pre),
        settings,
        extra,
    )
}

/// What a restore would do.
pub struct DryRun<'a, W> {
    pub workspaces: Vec<&'a WorkspaceEntry<W>>,
    /// The plans, workspace by workspace.
    pub plans: Vec<Vec<ClassPlan>>,
    /// The workspace that had the focus.
    pub active: i32,
}

/// Plans all workspaces, one after another.
fn plan_all<'a, W>(
    workspaces: &Vec<&'a WorkspaceEntry<W>>,
    pre_existing: ClassMap<usize>,
    cfg: &Config,
    extra_restore_apps: &[String],
) -> (r: Vec<Vec<ClassPlan>>)
    ensures
        r@.len() == workspaces@.len(),
        forall|k: int|
            0 <= k < r@.len() ==> plan::plan_values((#[trigger] r@[k])@) == plans_at(
                plan::entries(workspaces@),
                k,
                pre_existing@,
                cfg@,
                text::texts(extra_restore_apps@),
            ),
{
    let ghost all = plan::entries(workspaces@);
    let ghost pre = pre_existing@;
    let ghost extra = text::texts(extra_restore_apps@);
    let mut pre_existing = pre_existing;
    let mut out: Vec<Vec<ClassPlan>> = Vec::new();
    let mut k: usize = 0;
    while k < workspaces.len()
        invariant
            0 <= k <= workspaces@.len(),
            all == plan::entries(workspaces@),
            extra == text::texts(extra_restore_apps@),
            pre_existing@ == left_after(all.take(k as int), pre),
            out@.len() == k,
            forall|j: int|
                0 <= j < k ==> plan::plan_values((#[trigger] out@[j])@) == plans_at(
                    all,
                    j,
                    pre,
                    cfg@,
                    extra,
                ),
        decreases workspaces@.len() - k,
    {
        assert(all[k as int] == *workspaces@[k as int]);
        assert(all.take(k as int + 1).drop_last() =~= all.take(k as int));
        let plans: Vec<ClassPlan> = plan::plan_workspace(
            workspaces[k],
            &mut pre_existing,
            cfg,
            extra_restore_apps,
        );
        out.push(plans);
        k += 1;
    }
    out
}

/// Plans a restore with `clients` open. Where the session does not have the
/// workspace `only`, the message to tell comes back instead.
pub fn run_dry<'a, W>(
    session: &'a Session<W>,
    extra_restore_apps: &[String],
    cfg: &Config,
    only: Option<i32>,
    clients: &Vec<HyprClient>,
) -> (r: Result<DryRun<'a, W>, String>)
    ensures
        match r {
            Ok(dry) => {
                &&& plan::entries(dry.workspaces@) == plan::selected(session.workspaces@, only)
                &&& dry.active == session.active_workspace
                &&& dry.plans@.len() == dry.workspaces@.len()
                &&& forall|k: int|
                    0 <= k < dry.plans@.len() ==> plan::plan_values((#[trigger] dry.plans@[k])@)
                        == plans_at(
                        plan::selected(session.workspaces@, only),
                        k,
                        live::class_counts(live::client_classes(clients@)),
                        cfg@,
                        text::texts(extra_restore_apps@),
                    )
            },
            Err(e) => only is Some && e@ == messages::not_found_text(only->0, None),
        },
        r is Err <==> only is Some && plan::selected(session.workspaces@, only).len() == 0,
{
    match plan::select_workspaces(session, only) {
        None => {
            let id: i32 = match only {
                Some(id) => id,
                None => 0,
            };
            Err(messages::not_found(id, None))
        },
        Some(workspaces) => {
            let snapshot: live::Snapshot = live::snapshot(clients);
            let plans: Vec<Vec<ClassPlan>> = plan_all(
                &workspaces,
                snapshot.counts,
                cfg,
                extra_restore_apps,
            );
            Ok(DryRun { workspaces, plans, active: session.active_workspace })
        },
    }
}

/// The line that heads a workspace.
pub open spec fn heading_text(id: i32, windows: nat, active: i32) -> Seq<char> {
    "  workspace "@ + text::signed_decimal(id as int) + " ("@ + text::decimal(windows)
        + " window"@ + text::plural(windows) + ")"@ + (if id == active {
        "  ← active"@
    } else {
        ""@
    })
}

fn heading(id: i32, windows: usize, active: i32) -> (r: String)
    ensures
        r@ == heading_text(id, windows as nat, active),
{
    let number: String = text::i32_text(id);
    let count: String = text::usize_text(windows);
    let ending: String = text::plural_ending(windows);
    let mark: &str = if id == active {
        "  ← active"
    } else {
        ""
    };
    let head: String = text::join3("  workspace ", number.as_str(), " (");
    let head: String = text::join3(head.as_str(), count.as_str(), " window");
    let head: String = text::join3(head.as_str(), ending.as_str(), ")");
    text::join2(head.as_str(), mark)
}

/// The arguments of a launch, as far as there are any.
pub open spec fn args_text(args: Seq<Seq<char>>) -> Seq<char> {
    if args.len() == 0 {
        ""@
    } else {
        " [args: "@ + text::joined(args, " "@) + "]"@
    }
}

fn args_suffix(args: &Vec<String>) -> (r: String)
    ensures
        r@ == args_text(text::texts(args@)),
{
    if args.len() == 0 {
        "".to_owned()
    } else {
        let all: String = text::join(args, " ");
        text::join3(" [args: ", all.as_str(), "]")
    }
}

/// What would be done for a class.
pub open spec fn outcome_text(plan: PlanValue, command: Option<Seq<Seq<char>>>) -> Seq<char> {
    let waits = "launch 1  [session-restore, waits for "@ + text::decimal(plan.needed)
        + " window"@ + text::plural(plan.needed);
    let args = args_text(plan.launch_args);
    if plan.needed == 0 {
        "skip ("@ + text::decimal(plan.pre) + " already open)"@
    } else {
        match command {
            None => "SKIP (binary missing, no .desktop match)"@,
            Some(c) => if run::program(c) != plan.exe {
                if plan.session_restore {
                    waits + ", via "@ + run::program(c) + " — recorded exe missing]"@ + args
                } else {
                    "launch "@ + text::decimal(plan.needed) + "  [via "@ + run::program(c)
                        + " — recorded exe missing]"@ + args
                }
            } else if plan.session_restore {
                waits + "]"@ + args
            } else {
                "launch "@ + text::decimal(plan.needed) + args
            },
        }
    }
}

/// A command, as values.
pub open spec fn command_value(command: Option<&Vec<String>>) -> Option<Seq<Seq<char>>> {
    match command {
        Some(c) => Some(text::texts(c@)),
        None => None,
    }
}

fn outcome(plan: &ClassPlan, command: Option<&Vec<String>>) -> (r: String)
    ensures
        r@ == outcome_text(plan@, command_value(command)),
{
    let needed: String = text::usize_text(plan.needed);
    if plan.needed == 0 {
        let pre: String = text::usize_text(plan.pre);
        return text::join3("skip (", pre.as_str(), " already open)");
    }
    match command {
        None => "SKIP (binary missing, no .desktop match)".to_owned(),
        Some(c) => {
            let args: String = args_suffix(&plan.launch_args);
            let program: String = run::program_of(c);
            let ending: String = text::plural_ending(plan.needed);
            let waits: String = text::join3(
                "launch 1  [session-restore, waits for ",
                needed.as_str(),
                " window",
            );
            let waits: String = text::join2(waits.as_str(), ending.as_str());
            if !text::same(program.as_str(), plan.exe.as_str()) {
                if plan.session_restore {
                    let head: String = text::join3(waits.as_str(), ", via ", program.as_str());
                    text::join3(head.as_str(), " — recorded exe missing]", args.as_str())
                } else {
                    let head: String = text::join3("launch ", needed.as_str(), "  [via ");
                    let head: String = text::join3(
                        head.as_str(),
                        program.as_str(),
                        " — recorded exe missing]",
                    );
                    text::join2(head.as_str(), args.as_str())
                }
            } else if plan.session_restore {
                text::join3(waits.as_str(), "]", args.as_str())
            } else {
                text::join3("launch ", needed.as_str(), args.as_str())
            }
        },
    }
}

/// The line for a class.
pub open spec fn plan_text(plan: PlanValue, command: Option<Seq<Seq<char>>>) -> Seq<char> {
    "    "@ + text::padded(plan.class, 40) + " → "@ + outcome_text(plan, command)
}

fn plan_line(plan: &ClassPlan, command: Option<&Vec<String>>) -> (r: String)
    ensures
        r@ == plan_text(plan@, command_value(command)),
{
    let class: String = text::pad_right(plan.class.as_str(), 40);
    let what: String = outcome(plan, command);
    let head: String = text::join3("    ", class.as_str(), " → ");
    text::join2(head.as_str(), what.as_str())
}

/// The commands that were looked up, as values. What was not looked up was not
/// found.
pub open spec fn command_at(
    commands: Seq<Vec<Option<Vec<String>>>>,
    k: int,
    p: int,
) -> Option<Seq<Seq<char>>> {
    if k < commands.len() && p < commands[k]@.len() {
        match commands[k]@[p] {
            Some(c) => Some(text::texts(c@)),
            None => None,
        }
    } else {
        None
    }
}

fn get_command(commands: &Vec<Vec<Option<Vec<String>>>>, k: usize, p: usize) -> (r: Option<
    &Vec<String>,
>)
    ensures
        command_value(r) == command_at(commands@, k as int, p as int),
{
    if k < commands.len() && p < commands[k].len() {
        commands[k][p].as_ref()
    } else {
        None
    }
}

/// The commands that were looked up, by workspace and plan.
pub open spec fn looked_up(commands: Seq<Vec<Option<Vec<String>>>>) -> spec_fn(int, int) -> Option<
    Seq<Seq<char>>,
> {
    |k: int, p: int| command_at(commands, k, p)
}

/// The command for plan `p` of workspace `k`: none where no launch is needed, else
/// what launches the class.
pub open spec fn planned_command(
    plans: Seq<Vec<ClassPlan>>,
    exists: Seq<Vec<bool>>,
    entries: Seq<DesktopFile>,
) -> spec_fn(int, int) -> Option<Seq<Seq<char>>> {
    |k: int, p: int|
        {
            let plan = plans[k]@[p]@;
            if plan.needed == 0 {
                None
            } else {
                live::launch_command(
                    plan.class,
                    plan.exe,
                    k < exists.len() && p < exists[k]@.len() && exists[k]@[p],
                    entries,
                )
            }
        }
}

/// The lines for the first `n` classes of workspace `k`, whose commands are given.
pub open spec fn plan_lines(
    plans: Seq<PlanValue>,
    n: nat,
    command: spec_fn(int, int) -> Option<Seq<Seq<char>>>,
    k: int,
) -> Seq<Seq<char>>
    decreases n,
{
    if n == 0 {
        Seq::empty()
    } else {
        plan_lines(plans, (n - 1) as nat, command, k).push(
            plan_text(plans[n - 1], command(k, n - 1)),
        )
    }
}

/// The lines for the first `n` workspaces: a heading, a line for each class, and
/// an empty line.
pub open spec fn report_lines<W>(
    workspaces: Seq<WorkspaceEntry<W>>,
    plans: Seq<Vec<ClassPlan>>,
    active: i32,
    command: spec_fn(int, int) -> Option<Seq<Seq<char>>>,
    n: nat,
) -> Seq<Seq<char>>
    decreases n,
{
    if n == 0 {
        Seq::empty()
    } else {
        let k = n - 1;
        let entry = workspaces[k];
        let own = plan::plan_values(plans[k]@);
        (report_lines(workspaces, plans, active, command, k as nat).push(
            heading_text(entry.workspace, entry.windows@.len(), active),
        ) + plan_lines(own, own.len(), command, k)).push(""@)
    }
}

fn push_plan_lines(
    lines: &mut Vec<String>,
    plans: &Vec<ClassPlan>,
    commands: &Vec<Vec<Option<Vec<String>>>>,
    k: usize,
)
    ensures
        text::texts(final(lines)@) == text::texts(old(lines)@) + plan_lines(
            plan::plan_values(plans@),
            plans@.len(),
            looked_up(commands@),
            k as int,
        ),
{
    let ghost was = text::texts(lines@);
    let ghost own = plan::plan_values(plans@);
    let mut p: usize = 0;
    assert(was =~= was + plan_lines(own, 0, looked_up(commands@), k as int));
    while p < plans.len()
        invariant
            0 <= p <= plans@.len(),
            own == plan::plan_values(plans@),
            text::texts(lines@) == was + plan_lines(
                own,
                p as nat,
                looked_up(commands@),
                k as int,
            ),
        decreases plans@.len() - p,
    {
        assert(own[p as int] == plans@[p as int]@);
        let ghost before = text::texts(lines@);
        let line: String = plan_line(&plans[p], get_command(commands, k, p));
        lines.push(line);
        assert(text::texts(lines@) =~= before.push(line@));
        assert(text::texts(lines@) =~= was + plan_lines(
            own,
            p as nat + 1,
            looked_up(commands@),
            k as int,
        ));
        p += 1;
    }
}

impl<'a, W> DryRun<'a, W> {
    /// The lines that show what would be done, workspace by workspace. `commands`
    /// gives for each workspace and each of its plans the command that launches the
    /// class, where there is one.
    pub fn report(&self, commands: &Vec<Vec<Option<Vec<String>>>>) -> (r: Vec<String>)
        requires
            self.plans@.len() == self.workspaces@.len(),
        ensures
            text::texts(r@) == report_lines(
                plan::entries(self.workspaces@),
                self.plans@,
                self.active,
                looked_up(commands@),
                self.workspaces@.len(),
            ),
    {
        let ghost all = plan::entries(self.workspaces@);
        let mut lines: Vec<String> = Vec::new();
        let mut k: usize = 0;
        assert(text::texts(lines@) =~= report_lines(
            all,
            self.plans@,
            self.active,
            looked_up(commands@),
            0,
        ));
        while k < self.workspaces.len()
            invariant
                0 <= k <= self.workspaces@.len(),
                self.plans@.len() == self.workspaces@.len(),
                all == plan::entries(self.workspaces@),
                text::texts(lines@) == report_lines(
                    all,
                    self.plans@,
                    self.active,
                    looked_up(commands@),
                    k as nat,
                ),
            decreases self.workspaces@.len() - k,
        {
            let entry: &'a WorkspaceEntry<W> = self.workspaces[k];
            assert(all[k as int] == *entry);
            let ghost was = text::texts(lines@);
            let head: String = heading(entry.workspace, entry.windows.len(), self.active);
            lines.push(head);
            assert(text::texts(lines@) =~= was.push(head@));
            push_plan_lines(&mut lines, &self.plans[k], commands, k);
            let ghost before = text::texts(lines@);
            lines.push("".to_owned());
            assert(text::texts(lines@) =~= before.push(""@));
            k += 1;
        }
        lines
    }

    /// The commands that launch the classes, by workspace and plan: none where no
    /// launch is needed. `exists` tells of each plan whether its executable is there.
    pub fn commands(&self, exists: &Vec<Vec<bool>>, entries: &Vec<DesktopFile>) -> (r: Vec<
        Vec<Option<Vec<String>>>,
    >)
        ensures
            r@.len() == self.plans@.len(),
            forall|k: int|
                0 <= k < r@.len() ==> (#[trigger] r@[k])@.len() == self.plans@[k]@.len(),
            forall|k: int, p: int|
                0 <= k < r@.len() && 0 <= p < self.plans@[k]@.len() ==> #[trigger] command_at(
                    r@,
                    k,
                    p,
                ) == planned_command(self.plans@, exists@, entries@)(k, p),
    {
        let mut out: Vec<Vec<Option<Vec<String>>>> = Vec::new();
        let mut k: usize = 0;
        while k < self.plans.len()
            invariant
                0 <= k <= self.plans@.len(),
                out@.len() == k,
                forall|j: int|
                    0 <= j < k ==> (#[trigger] out@[j])@.len() == self.plans@[j]@.len(),
                forall|j: int, p: int|
                    0 <= j < k && 0 <= p < self.plans@[j]@.len() ==> #[trigger] command_at(
                        out@,
                        j,
                        p,
                    ) == planned_command(self.plans@, exists@, entries@)(j, p),
            decreases self.plans@.len() - k,
        {
            let ghost was = out@;
            let row: Vec<Option<Vec<String>>> = self.row(k, exists, entries);
            out.push(row);
            proof {
                assert forall|j: int, p: int|
                    0 <= j <= k && 0 <= p < self.plans@[j]@.len() implies #[trigger] command_at(
                    out@,
                    j,
                    p,
                ) == planned_command(self.plans@, exists@, entries@)(j, p) by {
                    if j < k {
                        assert(command_at(was, j, p) == command_at(out@, j, p));
                    } else {
                        assert(desktop_entry::opt_texts(row@[p]) == planned_command(
                            self.plans@,
                            exists@,
                            entries@,
                        )(j, p));
                    }
                }
            }
            k += 1;
        }
        out
    }

    fn row(&self, k: usize, exists: &Vec<Vec<bool>>, entries: &Vec<DesktopFile>) -> (r: Vec<
        Option<Vec<String>>,
    >)
        requires
            k < self.plans@.len(),
        ensures
            r@.len() == self.plans@[k as int]@.len(),
            forall|p: int|
                0 <= p < r@.len() ==> desktop_entry::opt_texts(#[trigger] r@[p])
                    == planned_command(self.plans@, exists@, entries@)(k as int, p),
    {
        let plans: &Vec<ClassPlan> = &self.plans[k];
        let mut out: Vec<Option<Vec<String>>> = Vec::new();
        let mut p: usize = 0;
        while p < plans.len()
            invariant
                0 <= p <= plans@.len(),
                k < self.plans@.len(),
                *plans == self.plans@[k as int],
                out@.len() == p,
                forall|j: int|
                    0 <= j < p ==> desktop_entry::opt_texts(#[trigger] out@[j])
                        == planned_command(self.plans@, exists@, entries@)(k as int, j),
            decreases plans@.len() - p,
        {
            let plan: &ClassPlan = &plans[p];
            let command: Option<Vec<String>> = if plan.needed == 0 {
                None
            } else {
                let there: bool = k < exists.len() && p < exists[k].len() && exists[k][p];
                live::resolve_launch_command(
                    plan.class.as_str(),
                    plan.exe.as_str(),
                    there,
                    entries,
                )
            };
            out.push(command);
            p += 1;
        }
        out
    }

    /// The lines that show what would be done. `exists` tells of each plan whether
    /// its executable is there; where it is not, the desktop entries are searched.
    pub fn show(&self, exists: &Vec<Vec<bool>>, entries: &Vec<DesktopFile>) -> (r: Vec<String>)
        requires
            self.plans@.len() == self.workspaces@.len(),
        ensures
            text::texts(r@) == report_lines(
                plan::entries(self.workspaces@),
                self.plans@,
                self.active,
                planned_command(self.plans@, exists@, entries@),
                self.workspaces@.len(),
            ),
    {
        let commands: Vec<Vec<Option<Vec<String>>>> = self.commands(exists, entries);
        proof {
            let a = looked_up(commands@);
            let b = planned_command(self.plans@, exists@, entries@);
            assert forall|k: int, p: int|
                0 <= k < self.plans@.len() && 0 <= p < self.plans@[k]@.len() implies #[trigger] a(
                k,
                p,
            ) == b(k, p) by {
                assert(command_at(commands@, k, p) == b(k, p));
            }
            lemma_same_report(
                plan::entries(self.workspaces@),
                self.plans@,
                self.active,
                a,
                b,
                self.workspaces@.len(),
            );
        }
        self.report(&commands)
    }
}

proof fn lemma_same_lines(
    plans: Seq<PlanValue>,
    n: nat,
    a: spec_fn(int, int) -> Option<Seq<Seq<char>>>,
    b: spec_fn(int, int) -> Option<Seq<Seq<char>>>,
    k: int,
)
    requires
        forall|p: int| 0 <= p < n ==> #[trigger] a(k, p) == b(k, p),
    ensures
        plan_lines(plans, n, a, k) == plan_lines(plans, n, b, k),
    decreases n,
{
    if n > 0 {
        lemma_same_lines(plans, (n - 1) as nat, a, b, k);
        assert(a(k, n - 1) == b(k, n - 1));
    }
}

proof fn lemma_same_report<W>(
    workspaces: Seq<WorkspaceEntry<W>>,
    plans: Seq<Vec<ClassPlan>>,
    active: i32,
    a: spec_fn(int, int) -> Option<Seq<Seq<char>>>,
    b: spec_fn(int, int) -> Option<Seq<Seq<char>>>,
    n: nat,
)
    requires
        n <= plans.len(),
        forall|k: int, p: int|
            0 <= k < plans.len() && 0 <= p < plans[k]@.len() ==> #[trigger] a(k, p) == b(k, p),
    ensures
        report_lines(workspaces, plans, active, a, n) == report_lines(
            workspaces,
            plans,
            active,
            b,
            n,
        ),
    decreases n,
{
    if n > 0 {
        let k = n - 1;
        let own = plan::plan_values(plans[k]@);
        lemma_same_report(workspaces, plans, active, a, b, k as nat);
        lemma_same_lines(own, own.len(), a, b, k);
    }
}

/// A dry run shows for a class what a restore starts for it: the command in the line
/// is the one that the answer to the restore's query gives.
pub proof fn law_dry_run_shows_what_is_started<W>(
    s: RestoreState<W>,
    plans: Seq<Vec<ClassPlan>>,
    exists: Seq<Vec<bool>>,
    entries: Seq<DesktopFile>,
    k: int,
    p: int,
)
    requires
        0 <= k < plans.len() && k < exists.len(),
        0 <= p < plans[k]@.len() && p < exists[k]@.len(),
        s.stage matches StageValue::Resolving(_, plan, _) && plan == plans[k]@[p]@ && plan.needed
            > 0,
    ensures
        ({
            let plan = plans[k]@[p]@;
            let reply = ReplyValue::Command(
                live::launch_command(plan.class, plan.exe, exists[k]@[p], entries),
            );
            match (planned_command(plans, exists, entries)(k, p), run::followed(s, reply)) {
                (Some(c), next) => if plan.session_restore {
                    next.turn.query == QueryValue::<W>::Spawn(c + plan.launch_args)
                } else {
                    next.state.stage matches StageValue::Launching(_, l) && l.command == c
                        && l.plan == plan
                },
                (None, next) => next.turn.query !is Spawn,
            }
        }),
{
}

/// Whether a restore that found `pre` open has, up to now, taken of it what the
/// workspaces that could be focused take one after another.
pub open spec fn agrees<W>(s: RestoreState<W>, pre: Map<Seq<char>, usize>) -> bool {
    let planned = if s.stage is Focusing {
        s.begun - 1
    } else {
        s.begun as int
    };
    &&& laws::in_sequence(s)
    &&& s.pre_existing == left_after(s.workspaces.take(planned), pre)
}

/// A dry run plans what a restore launches: as long as every workspace can be
/// focused, the plans for each are those of the dry run.
pub proof fn law_dry_run_agrees<W>(
    s: RestoreState<W>,
    pre: Map<Seq<char>, usize>,
    reply: ReplyValue,
)
    requires
        agrees(s, pre),
        s.stage !is Locking,
        s.stage !is Snapshotting,
        s.stage is Focusing ==> reply is Done,
    ensures
        agrees(run::followed(s, reply).state, pre),
        s.stage is Focusing ==> run::followed(s, reply) == run::next_plan(
            RestoreState {
                plans: plans_at(s.workspaces, s.begun - 1, pre, s.settings, s.extra),
                pre_existing: left_after(s.workspaces.take(s.begun as int), pre),
                ..s
            },
            s.workspaces[s.begun - 1],
            Seq::empty(),
        ),
{
    laws::law_workspaces_are_restored_in_sequence(s, reply);
    if s.begun > 0 {
        assert(s.workspaces.take(s.begun as int).drop_last() =~= s.workspaces.take(s.begun - 1));
    }
}

/// The snapshot that a restore takes is what a dry run starts from.
pub proof fn law_dry_run_starts_alike<W>(s: RestoreState<W>, clients: Seq<HyprClient>)
    requires
        s.stage is Snapshotting,
        laws::in_sequence(s),
    ensures
        agrees(
            run::followed(s, ReplyValue::Clients(clients)).state,
            live::class_counts(live::client_classes(clients)),
        ),
{
    assert(s.workspaces.take(0) =~= Seq::<WorkspaceEntry<W>>::empty());
}

/// A class that is launched window by window is shown with the number of its launches,
/// so that plans that need different numbers are shown differently.
pub proof fn law_launches_are_shown_with_their_number(
    plan: PlanValue,
    command: Seq<Seq<char>>,
    other: PlanValue,
)
    requires
        plan.needed > 0,
        !plan.session_restore,
        command.len() > 0,
        command[0] == plan.exe,
        other == (PlanValue { needed: other.needed, ..plan }),
        other.needed > 0,
        other.needed != plan.needed,
    ensures
        text::begins(
            outcome_text(plan, Some(command)),
            "launch "@ + text::decimal(plan.needed),
        ),
        plan.launch_args.len() == 0 ==> outcome_text(plan, Some(command)) == "launch "@
            + text::decimal(plan.needed),
        outcome_text(plan, Some(command)) != outcome_text(other, Some(command)),
{
    reveal_strlit("");
    let head = "launch "@;
    let tail = args_text(plan.launch_args);
    let a = text::decimal(plan.needed);
    let b = text::decimal(other.needed);
    let x = outcome_text(plan, Some(command));
    let y = outcome_text(other, Some(command));
    assert(x == head + a + tail);
    assert(y == head + b + tail);
    if plan.launch_args.len() == 0 {
        assert(x =~= head + a);
    }
    text::law_numbers_are_told_apart(plan.needed as int, other.needed as int);
    if x == y {
        assert(x.subrange(head.len() as int, head.len() as int + a.len()) =~= a);
        assert(y.subrange(head.len() as int, head.len() as int + b.len()) =~= b);
        assert(a.len() == b.len());
    }
}

/// A class whose program was found elsewhere is shown with what is run in its place, a
/// class that restores itself with one launch and the number of windows to wait for,
/// and a class that nothing launches as skipped.
pub proof fn law_outcomes_are_told_apart(plan: PlanValue, command: Seq<Seq<char>>)
    requires
        command.len() > 0,
    ensures
        plan.needed == 0 ==> outcome_text(plan, Some(command)) == "skip ("@ + text::decimal(plan.pre)
            + " already open)"@ && outcome_text(plan, None) == outcome_text(plan, Some(command)),
        plan.needed > 0 ==> outcome_text(plan, None)
            == "SKIP (binary missing, no .desktop match)"@,
        plan.needed > 0 && !plan.session_restore && command[0] != plan.exe ==> text::begins(
            outcome_text(plan, Some(command)),
            "launch "@ + text::decimal(plan.needed) + "  [via "@ + command[0],
        ),
        plan.needed > 0 && plan.session_restore ==> text::begins(
            outcome_text(plan, Some(command)),
            "launch 1  [session-restore, waits for "@ + text::decimal(plan.needed) + " window"@
                + text::plural(plan.needed),
        ),
        plan.needed > 0 && plan.session_restore && command[0] != plan.exe ==> text::begins(
            outcome_text(plan, Some(command)),
            "launch 1  [session-restore, waits for "@ + text::decimal(plan.needed) + " window"@
                + text::plural(plan.needed) + ", via "@ + command[0],
        ),
        plan.needed > 0 ==> text::ends(
            outcome_text(plan, Some(command)),
            args_text(plan.launch_args),
        ),
{
    let args = args_text(plan.launch_args);
    let x = outcome_text(plan, Some(command));
    if plan.needed > 0 {
        let waits = "launch 1  [session-restore, waits for "@ + text::decimal(plan.needed)
            + " window"@ + text::plural(plan.needed);
        let via = "launch "@ + text::decimal(plan.needed) + "  [via "@ + command[0];
        let missing = " — recorded exe missing]"@;
        if plan.session_restore && command[0] != plan.exe {
            assert(x =~= waits + (", via "@ + command[0] + missing + args));
            assert(x =~= (waits + ", via "@ + command[0]) + (missing + args));
            assert(x =~= (waits + ", via "@ + command[0] + missing) + args);
        } else if plan.session_restore {
            assert(x =~= waits + ("]"@ + args));
            assert(x =~= (waits + "]"@) + args);
        } else if command[0] != plan.exe {
            assert(x =~= via + (missing + args));
            assert(x =~= (via + missing) + args);
        }
    }
}

/// The arguments of a launch are shown in their order, with spaces between them, and
/// nothing is shown where there are none.
pub proof fn law_arguments_are_shown(args: Seq<Seq<char>>, arg: Seq<char>)
    ensures
        args_text(Seq::empty()).len() == 0,
        args_text(seq![arg]) == " [args: "@ + arg + "]"@,
        args.len() > 0 ==> args_text(args) == " [args: "@ + text::joined(args, " "@) + "]"@,
        args.len() > 0 ==> args_text(args.push(arg)) == " [args: "@ + text::joined(args, " "@) + " "@
            + arg + "]"@,
{
    reveal_strlit("");
    text::law_joining_separates_neighbours(args, arg, " "@);
    if args.len() > 0 {
        assert(args_text(args.push(arg)) =~= " [args: "@ + text::joined(args, " "@) + " "@ + arg
            + "]"@);
    }
}

/// The line for a class shows its name in a column, and then what would be done.
pub proof fn law_plan_lines_show_class_and_outcome(
    plan: PlanValue,
    command: Option<Seq<Seq<char>>>,
)
    requires
        plan.class.len() <= 40,
    ensures
        ({
            let line = plan_text(plan, command);
            &&& line.subrange(4, 4int + plan.class.len()) == plan.class
            &&& line.skip(47) == outcome_text(plan, command)
            &&& line.subrange(44, 47) == " → "@
        }),
{
    reveal_strlit("    ");
    reveal_strlit(" → ");
    text::law_padding_fills_up(plan.class, 40);
    let line = plan_text(plan, command);
    let c = text::padded(plan.class, 40);
    assert(line.subrange(4, 4int + plan.class.len()) =~= c.take(plan.class.len() as int));
    assert(line.skip(47) =~= outcome_text(plan, command));
    assert(line.subrange(44, 47) =~= " → "@);
}

/// A workspace is headed by its id and the number of its windows, and the one that had
/// the focus, and no other, is marked.
pub proof fn law_headings_mark_the_active_workspace(id: i32, windows: nat, active: i32)
    ensures
        text::begins(
            heading_text(id, windows, active),
            "  workspace "@ + text::signed_decimal(id as int) + " ("@ + text::decimal(windows)
                + " window"@,
        ),
        id == active ==> text::ends(heading_text(id, windows, active), ")  ← active"@),
        id != active ==> text::ends(heading_text(id, windows, active), ")"@),
        windows == 1 <==> text::begins(
            heading_text(id, windows, active),
            "  workspace "@ + text::signed_decimal(id as int) + " ("@ + text::decimal(windows)
                + " window)"@,
        ),
{
    reveal_strlit("");
    reveal_strlit(")");
    reveal_strlit("s");
    reveal_strlit(" window");
    reveal_strlit(" window)");
    reveal_strlit("  ← active");
    reveal_strlit(")  ← active");
    let x = heading_text(id, windows, active);
    let head = "  workspace "@ + text::signed_decimal(id as int) + " ("@ + text::decimal(windows)
        + " window"@;
    let closed = "  workspace "@ + text::signed_decimal(id as int) + " ("@ + text::decimal(windows)
        + " window)"@;
    assert(x =~= head + x.skip(head.len() as int));
    if id == active {
        assert(x =~= x.take(x.len() - 11) + ")  ← active"@);
    } else {
        assert(x =~= x.take(x.len() - 1) + ")"@);
    }
    if windows == 1 {
        assert(x =~= closed + x.skip(closed.len() as int));
    } else {
        assert(x[head.len() as int] == 's');
        if text::begins(x, closed) {
            let rest = choose|rest: Seq<char>| x == #[trigger] (closed + rest);
            assert((closed + rest)[head.len() as int] == ')');
        }
    }
}

/// The report goes through the workspaces in order: a heading, a line for each plan in
/// its order, and an empty line.
pub proof fn law_reports_go_through_all<W>(
    workspaces: Seq<WorkspaceEntry<W>>,
    plans: Seq<Vec<ClassPlan>>,
    active: i32,
    command: spec_fn(int, int) -> Option<Seq<Seq<char>>>,
    n: nat,
)
    requires
        n < workspaces.len(),
        n < plans.len(),
    ensures
        ({
            let before = report_lines(workspaces, plans, active, command, n);
            let now = report_lines(workspaces, plans, active, command, n + 1);
            let own = plans[n as int]@;
            &&& report_lines(workspaces, plans, active, command, 0).len() == 0
            &&& now.len() == before.len() + own.len() + 2
            &&& now.take(before.len() as int) == before
            &&& now[before.len() as int] == heading_text(
                workspaces[n as int].workspace,
                workspaces[n as int].windows@.len(),
                active,
            )
            &&& forall|p: int|
                0 <= p < own.len() ==> now[before.len() + 1 + p] == plan_text(
                    (#[trigger] own[p])@,
                    command(n as int, p),
                )
            &&& now.last().len() == 0
        }),
{
    reveal_strlit("");
    let before = report_lines(workspaces, plans, active, command, n);
    let now = report_lines(workspaces, plans, active, command, n + 1);
    let own = plan::plan_values(plans[n as int]@);
    let lines = plan_lines(own, own.len(), command, n as int);
    lemma_plan_lines(own, own.len(), command, n as int);
    assert(now.take(before.len() as int) =~= before);
    assert forall|p: int| 0 <= p < plans[n as int]@.len() implies now[before.len() + 1 + p]
        == plan_text((#[trigger] plans[n as int]@[p])@, command(n as int, p)) by {
        assert(now[before.len() + 1 + p] == lines[p]);
        assert(own[p] == plans[n as int]@[p]@);
    }
}

proof fn lemma_plan_lines(
    plans: Seq<PlanValue>,
    n: nat,
    command: spec_fn(int, int) -> Option<Seq<Seq<char>>>,
    k: int,
)
    ensures
        plan_lines(plans, n, command, k).len() == n,
        forall|p: int|
            0 <= p < n ==> #[trigger] plan_lines(plans, n, command, k)[p] == plan_text(
                plans[p],
                command(k, p),
            ),
    decreases n,
{
    if n > 0 {
        lemma_plan_lines(plans, (n - 1) as nat, command, k);
    }
}

/// What is left of the open windows after one workspace more is what that workspace
/// leaves of what the ones before it left.
pub proof fn law_workspaces_take_one_after_another<W>(
    workspaces: Seq<WorkspaceEntry<W>>,
    w: WorkspaceEntry<W>,
    pre: Map<Seq<char>, usize>,
)
    ensures
        left_after(Seq::<WorkspaceEntry<W>>::empty(), pre) == pre,
        left_after(workspaces.push(w), pre) == plan::left_over(
            w.windows@,
            w.windows@.len() as int,
            left_after(workspaces, pre),
        ),
{
    assert(workspaces.push(w).drop_last() =~= workspaces);
}

} // verus!
