//! Restoring the workspaces of a session, one after another.

use vstd::prelude::*;

use crate::collections::{ClassMap, TextSet};
use crate::config::{Config, Settings};
use crate::hyprland::HyprClient;
use crate::restore::plan::{self, ClassPlan, PlanValue};
use crate::restore::protocol::{
    self, Command, CommandValue, Query, QueryValue, Reply, ReplyValue, Turn, TurnValue,
};
use crate::restore::reorder::{self, Reorder};
use crate::restore::sweep::{self, Sweep};
use crate::restore::{live, messages, tally};
use crate::session::{self, Session, WorkspaceEntry};
use crate::text;

verus! {

/// How long, in milliseconds, the compositor is given after a workspace was
/// focused.
pub const FOCUS_MS: u64 = 200;

/// How long, in milliseconds, the windows of a class are given after the last of
/// them opened.
pub const CLASS_MS: u64 = 300;

/// A class whose windows are launched one at a time.
pub struct Launch {
    pub plan: ClassPlan,
    /// What launches the class.
    pub command: Vec<String>,
    /// How many windows of the class were open before the first launch.
    pub before: usize,
    /// How many launches follow this one.
    pub rest: usize,
}

/// A class whose windows are launched one at a time, as values.
pub struct LaunchValue {
    pub plan: PlanValue,
    pub command: Seq<Seq<char>>,
    pub before: nat,
    pub rest: nat,
}

impl View for Launch {
    type V = LaunchValue;

    open spec fn view(&self) -> LaunchValue {
        LaunchValue {
            plan: self.plan@,
            command: text::texts(self.command@),
            before: self.before as nat,
            rest: self.rest as nat,
        }
    }
}

/// How far a restore is.
pub enum Stage<'a, W> {
    /// The lock is being taken.
    Locking,
    /// What is open is being taken down.
    Snapshotting,
    /// The events are being subscribed to.
    Subscribing,
    /// A workspace is being focused.
    Focusing(&'a WorkspaceEntry<W>),
    /// The windows of a class are being counted before it is launched.
    Counting(&'a WorkspaceEntry<W>, ClassPlan),
    /// What launches a class is being looked up.
    Resolving(&'a WorkspaceEntry<W>, ClassPlan, usize),
    /// An app that restores itself is being started.
    SpawningAll(&'a WorkspaceEntry<W>, ClassPlan, String, usize),
    /// The windows of an app that restores itself are being waited for.
    WaitingAll(&'a WorkspaceEntry<W>, ClassPlan, usize),
    /// Windows that no event told of are being counted.
    Rechecking(&'a WorkspaceEntry<W>, ClassPlan, usize, usize),
    /// The windows of a class are being counted before the next launch.
    Launching(&'a WorkspaceEntry<W>, Launch),
    /// An app is being started.
    Spawning(&'a WorkspaceEntry<W>, Launch, usize),
    /// The window of an app is being waited for.
    Waiting(&'a WorkspaceEntry<W>, Launch, usize),
    /// A window that no event told of is being looked for.
    Confirming(&'a WorkspaceEntry<W>, Launch, usize),
    /// The columns of a workspace are being put in order.
    Reordering(&'a WorkspaceEntry<W>, Reorder<W>),
    /// Stray windows are being moved.
    Sweeping(Sweep<W>),
    /// The last workspace is being focused.
    Refocusing,
    /// Nothing is left to do.
    Over,
}

/// How far a restore is, as values.
pub enum StageValue<W> {
    Locking,
    Snapshotting,
    Subscribing,
    Focusing(WorkspaceEntry<W>),
    Counting(WorkspaceEntry<W>, PlanValue),
    Resolving(WorkspaceEntry<W>, PlanValue, nat),
    SpawningAll(WorkspaceEntry<W>, PlanValue, Seq<char>, nat),
    WaitingAll(WorkspaceEntry<W>, PlanValue, nat),
    Rechecking(WorkspaceEntry<W>, PlanValue, nat, nat),
    Launching(WorkspaceEntry<W>, LaunchValue),
    Spawning(WorkspaceEntry<W>, LaunchValue, nat),
    Waiting(WorkspaceEntry<W>, LaunchValue, nat),
    Confirming(WorkspaceEntry<W>, LaunchValue, nat),
    Reordering(WorkspaceEntry<W>, reorder::StageValue<W>),
    Sweeping(sweep::StageValue<W>),
    Refocusing,
    Over,
}

impl<'a, W> View for Stage<'a, W> {
    type V = StageValue<W>;

    open spec fn view(&self) -> StageValue<W> {
        match *self {
            Stage::Locking => StageValue::Locking,
            Stage::Snapshotting => StageValue::Snapshotting,
            Stage::Subscribing => StageValue::Subscribing,
            Stage::Focusing(e) => StageValue::Focusing(*e),
            Stage::Counting(e, p) => StageValue::Counting(*e, p@),
            Stage::Resolving(e, p, n) => StageValue::Resolving(*e, p@, n as nat),
            Stage::SpawningAll(e, p, program, n) => StageValue::SpawningAll(
                *e,
                p@,
                program@,
                n as nat,
            ),
            Stage::WaitingAll(e, p, n) => StageValue::WaitingAll(*e, p@, n as nat),
            Stage::Rechecking(e, p, n, got) => StageValue::Rechecking(
                *e,
                p@,
                n as nat,
                got as nat,
            ),
            Stage::Launching(e, l) => StageValue::Launching(*e, l@),
            Stage::Spawning(e, l, n) => StageValue::Spawning(*e, l@, n as nat),
            Stage::Waiting(e, l, n) => StageValue::Waiting(*e, l@, n as nat),
            Stage::Confirming(e, l, n) => StageValue::Confirming(*e, l@, n as nat),
            Stage::Reordering(e, sub) => StageValue::Reordering(*e, sub.stage@),
            Stage::Sweeping(sub) => StageValue::Sweeping(sub.stage@),
            Stage::Refocusing => StageValue::Refocusing,
            Stage::Over => StageValue::Over,
        }
    }
}

/// A restore.
pub struct Restore<'a, W> {
    /// The workspaces to restore.
    pub workspaces: Vec<&'a WorkspaceEntry<W>>,
    pub cfg: &'a Config,
    pub extra_restore_apps: &'a [String],
    /// The workspace that has the focus in the end.
    pub target: i32,
    /// How many workspaces have been begun.
    pub begun: usize,
    /// How many windows of each class were open before the restore and stand in
    /// for no saved window yet.
    pub pre_existing: ClassMap<usize>,
    /// The addresses of the windows that were open before the restore.
    pub addresses: TextSet,
    /// The plans for the workspace that was begun last that have not been looked
    /// at yet.
    pub plans: Vec<ClassPlan>,
    pub stage: Stage<'a, W>,
}

/// A restore, as values.
pub struct RestoreState<W> {
    pub workspaces: Seq<WorkspaceEntry<W>>,
    pub settings: Settings,
    pub extra: Seq<Seq<char>>,
    pub target: i32,
    pub begun: nat,
    pub pre_existing: Map<Seq<char>, usize>,
    pub addresses: Set<Seq<char>>,
    pub plans: Seq<PlanValue>,
    pub stage: StageValue<W>,
}

impl<'a, W> View for Restore<'a, W> {
    type V = RestoreState<W>;

    open spec fn view(&self) -> RestoreState<W> {
        RestoreState {
            workspaces: plan::entries(self.workspaces@),
            settings: self.cfg@,
            extra: text::texts(self.extra_restore_apps@),
            target: self.target,
            begun: self.begun as nat,
            pre_existing: self.pre_existing@,
            addresses: self.addresses@,
            plans: plan::plan_values(self.plans@),
            stage: self.stage@,
        }
    }
}

/// A state and a turn that lead on from another state.
pub struct Advance<W> {
    pub state: RestoreState<W>,
    pub turn: TurnValue<W>,
}

/// A stage and what it asks for.
pub open spec fn at<W>(
    s: RestoreState<W>,
    stage: StageValue<W>,
    commands: Seq<CommandValue<W>>,
    query: QueryValue<W>,
) -> Advance<W> {
    Advance { state: RestoreState { stage, ..s }, turn: TurnValue { commands, query } }
}

/// The start of a restore.
pub open spec fn first_turn<W>(
    session: Session<W>,
    name: Seq<char>,
    extra: Seq<Seq<char>>,
    settings: Settings,
    only: Option<i32>,
) -> Advance<W> {
    let told = seq![CommandValue::Progress(messages::restoring_text(name, only))];
    Advance {
        state: RestoreState {
            workspaces: plan::selected(session.workspaces@, only),
            settings,
            extra,
            target: match only {
                Some(id) => id,
                None => session.active_workspace,
            },
            begun: 0,
            pre_existing: Map::empty(),
            addresses: Set::empty(),
            plans: Seq::empty(),
            stage: StageValue::Locking,
        },
        turn: TurnValue {
            commands: if settings.overlay {
                told.push(CommandValue::SpawnOverlay)
            } else {
                told
            },
            query: QueryValue::AcquireLock,
        },
    }
}

/// The next workspace, or the sweep once all have been begun.
pub open spec fn begin<W>(s: RestoreState<W>, commands: Seq<CommandValue<W>>) -> Advance<W> {
    if s.begun < s.workspaces.len() {
        let entry = s.workspaces[s.begun as int];
        let told = commands.push(
            CommandValue::Progress(
                messages::workspace_text(entry.workspace, entry.windows@.len()),
            ),
        );
        let shown = if s.settings.overlay {
            told.push(
                CommandValue::OverlayProgress(
                    messages::overlay_text(s.begun + 1, s.workspaces.len()),
                ),
            )
        } else {
            told
        };
        at(
            RestoreState { begun: s.begun + 1, ..s },
            StageValue::Focusing(entry),
            shown.push(CommandValue::FocusWorkspace(entry.workspace)).push(
                CommandValue::Sleep(FOCUS_MS),
            ),
            QueryValue::Nothing,
        )
    } else {
        let first = sweep::first_turn::<W>(s.settings.settle_delay_secs);
        at(
            s,
            StageValue::Sweeping(first.stage),
            commands + first.turn.commands,
            first.turn.query,
        )
    }
}

/// What is left of the plans from the first one that needs a launch.
pub open spec fn uncovered(plans: Seq<PlanValue>) -> Seq<PlanValue>
    decreases plans.len(),
{
    if plans.len() > 0 && plans[0].needed == 0 {
        uncovered(plans.skip(1))
    } else {
        plans
    }
}

/// What is told of the plans before the first one that needs a launch.
pub open spec fn covered_notes(plans: Seq<PlanValue>) -> Seq<Seq<char>>
    decreases plans.len(),
{
    if plans.len() > 0 && plans[0].needed == 0 {
        seq![messages::covered_text(plans[0].class, plans[0].saved_count)] + covered_notes(
            plans.skip(1),
        )
    } else {
        Seq::empty()
    }
}

/// The next class that needs a launch, or the order of the columns once there is
/// none. Classes that need none are told.
pub open spec fn next_plan<W>(
    s: RestoreState<W>,
    entry: WorkspaceEntry<W>,
    commands: Seq<CommandValue<W>>,
) -> Advance<W> {
    let plans = uncovered(s.plans);
    let told = commands + protocol::debug_commands::<W>(covered_notes(s.plans));
    if plans.len() > 0 {
        at(
            RestoreState { plans: plans.skip(1), ..s },
            StageValue::Counting(entry, plans[0]),
            told,
            QueryValue::Clients,
        )
    } else {
        let first = reorder::first_turn::<W>(entry.workspace);
        at(
            RestoreState { plans, ..s },
            StageValue::Reordering(entry, first.stage),
            told + first.turn.commands,
            first.turn.query,
        )
    }
}

/// The next launch of a class, where `left` are left, or the next class.
pub open spec fn next_launch<W>(
    s: RestoreState<W>,
    entry: WorkspaceEntry<W>,
    launch: LaunchValue,
    left: nat,
    commands: Seq<CommandValue<W>>,
) -> Advance<W> {
    if left > 0 {
        at(
            s,
            StageValue::Launching(entry, LaunchValue { rest: (left - 1) as nat, ..launch }),
            commands,
            QueryValue::Clients,
        )
    } else {
        next_plan(s, entry, commands.push(CommandValue::Sleep(CLASS_MS)))
    }
}

/// The number of a launch, from one.
pub open spec fn number(launch: LaunchValue) -> nat {
    if launch.rest <= launch.plan.needed {
        (launch.plan.needed - launch.rest) as nat
    } else {
        0
    }
}

/// The program of a command.
pub open spec fn program(command: Seq<Seq<char>>) -> Seq<char> {
    if command.len() > 0 {
        command[0]
    } else {
        ""@
    }
}

/// What follows a workspace that failed: the failure is told, and the restore goes
/// on.
pub open spec fn passed_over<W>(
    s: RestoreState<W>,
    entry: WorkspaceEntry<W>,
    e: Seq<char>,
    commands: Seq<CommandValue<W>>,
) -> Advance<W> {
    begin(
        s,
        commands.push(
            CommandValue::Warn(messages::workspace_failed_text(entry.workspace, e)),
        ),
    )
}

/// The end of the restore: the last workspace is focused.
pub open spec fn wind_up<W>(s: RestoreState<W>, commands: Seq<CommandValue<W>>) -> Advance<W> {
    let hidden = if s.settings.overlay {
        commands.push(CommandValue::KillOverlay)
    } else {
        commands
    };
    at(
        s,
        StageValue::Refocusing,
        hidden.push(CommandValue::FocusWorkspace(s.target)),
        QueryValue::Nothing,
    )
}

/// How many windows of `class` there are.
pub open spec fn open_count(clients: Seq<HyprClient>, class: Seq<char>) -> nat {
    tally::count_of(live::client_classes(clients), class)
}

/// What follows while a restore gets ready: any failure ends it.
pub open spec fn prepared<W>(s: RestoreState<W>, reply: ReplyValue) -> Advance<W> {
    match (s.stage, reply) {
        (StageValue::Locking, ReplyValue::Done) => at(
            s,
            StageValue::Snapshotting,
            Seq::empty(),
            QueryValue::Clients,
        ),
        (StageValue::Snapshotting, ReplyValue::Clients(clients)) => at(
            RestoreState {
                pre_existing: live::class_counts(live::client_classes(clients)),
                addresses: live::client_addresses(clients).to_set(),
                ..s
            },
            StageValue::Subscribing,
            Seq::empty(),
            QueryValue::Subscribe,
        ),
        (StageValue::Subscribing, ReplyValue::Done) => begin(s, Seq::empty()),
        _ => at(
            s,
            StageValue::Over,
            Seq::empty(),
            QueryValue::Finish(Err(protocol::failure(reply))),
        ),
    }
}

/// What follows once a command that launches a class has been looked up.
pub open spec fn resolved<W>(
    s: RestoreState<W>,
    entry: WorkspaceEntry<W>,
    plan: PlanValue,
    before: nat,
    command: Option<Seq<Seq<char>>>,
) -> Advance<W> {
    match command {
        None => next_plan(
            s,
            entry,
            seq![CommandValue::Warn(messages::no_binary_text(plan.class, plan.exe))],
        ),
        Some(command) => if plan.session_restore {
            at(
                s,
                StageValue::SpawningAll(entry, plan, program(command), before),
                Seq::empty(),
                QueryValue::Spawn(command + plan.launch_args),
            )
        } else {
            next_launch(
                s,
                entry,
                LaunchValue { plan, command, before, rest: 0 },
                plan.needed,
                Seq::empty(),
            )
        },
    }
}

/// What follows while one app is launched time after time.
pub open spec fn launched<W>(
    s: RestoreState<W>,
    entry: WorkspaceEntry<W>,
    reply: ReplyValue,
) -> Advance<W> {
    match (s.stage, reply) {
        (StageValue::Launching(_, l), ReplyValue::Clients(clients)) => {
            let current = open_count(clients, l.plan.class);
            if current >= l.before + l.plan.needed {
                next_launch(
                    s,
                    entry,
                    l,
                    l.rest,
                    seq![
                        CommandValue::Debug(
                            messages::already_text(
                                l.plan.class,
                                number(l),
                                l.plan.needed,
                                current,
                            ),
                        ),
                    ],
                )
            } else {
                at(
                    s,
                    StageValue::Spawning(entry, l, current),
                    Seq::empty(),
                    QueryValue::Spawn(l.command + l.plan.launch_args),
                )
            }
        },
        (StageValue::Spawning(_, l, current), ReplyValue::Done) => at(
            s,
            StageValue::Waiting(entry, l, current),
            Seq::empty(),
            QueryValue::Wait { class: l.plan.class, count: 1 },
        ),
        (StageValue::Spawning(_, l, _), _) => next_launch(
            s,
            entry,
            l,
            l.rest,
            seq![
                CommandValue::Warn(
                    messages::launch_failed_text(
                        l.plan.class,
                        number(l),
                        l.plan.needed,
                        program(l.command),
                        protocol::failure(reply),
                    ),
                ),
            ],
        ),
        (StageValue::Waiting(_, l, current), ReplyValue::Count(got)) => if got == 0 {
            at(s, StageValue::Confirming(entry, l, current), Seq::empty(), QueryValue::Clients)
        } else {
            next_launch(s, entry, l, l.rest, Seq::empty())
        },
        (StageValue::Confirming(_, l, current), ReplyValue::Clients(clients)) => next_launch(
            s,
            entry,
            l,
            l.rest,
            if open_count(clients, l.plan.class) <= current {
                seq![
                    CommandValue::Note(
                        messages::timeout_text(l.plan.class, number(l), l.plan.needed),
                    ),
                ]
            } else {
                Seq::empty()
            },
        ),
        _ => passed_over(s, entry, protocol::failure(reply), Seq::empty()),
    }
}

/// What follows once an app that restores itself has opened `got` windows: they are
/// told, and the next class comes.
pub open spec fn counted<W>(
    s: RestoreState<W>,
    entry: WorkspaceEntry<W>,
    plan: PlanValue,
    before: nat,
    got: nat,
    converged: bool,
) -> Advance<W> {
    next_plan(
        s,
        entry,
        seq![
            CommandValue::Debug(
                messages::appeared_text(
                    plan.class,
                    got,
                    plan.needed,
                    session::capped(before + got),
                    converged,
                ),
            ),
            CommandValue::Sleep(CLASS_MS),
        ],
    )
}

/// What follows while the windows of a workspace are opened: a failure ends the
/// work on this workspace, and on no other.
pub open spec fn populated<W>(
    s: RestoreState<W>,
    entry: WorkspaceEntry<W>,
    reply: ReplyValue,
) -> Advance<W> {
    match (s.stage, reply) {
        (StageValue::Focusing(_), ReplyValue::Done) => {
            let windows = entry.windows@;
            next_plan(
                RestoreState {
                    plans: plan::plans_for(
                        windows,
                        windows.len(),
                        s.pre_existing,
                        s.settings,
                        s.extra,
                    ),
                    pre_existing: plan::left_over(windows, windows.len() as int, s.pre_existing),
                    ..s
                },
                entry,
                Seq::empty(),
            )
        },
        (StageValue::Counting(_, plan), ReplyValue::Clients(clients)) => at(
            s,
            StageValue::Resolving(entry, plan, open_count(clients, plan.class)),
            seq![
                CommandValue::Debug(
                    messages::counts_text(
                        plan.class,
                        plan.saved_count,
                        plan.pre,
                        plan.needed,
                        open_count(clients, plan.class),
                    ),
                ),
            ],
            QueryValue::Resolve { class: plan.class, exe: plan.exe },
        ),
        (StageValue::Resolving(_, plan, before), ReplyValue::Command(command)) => resolved(
            s,
            entry,
            plan,
            before,
            command,
        ),
        (StageValue::SpawningAll(_, plan, _, before), ReplyValue::Done) => at(
            s,
            StageValue::WaitingAll(entry, plan, before),
            Seq::empty(),
            QueryValue::Wait { class: plan.class, count: plan.needed },
        ),
        (StageValue::SpawningAll(_, plan, program, _), _) => next_plan(
            s,
            entry,
            seq![
                CommandValue::Warn(
                    messages::spawn_failed_text(plan.class, program, protocol::failure(reply)),
                ),
            ],
        ),
        (StageValue::WaitingAll(_, plan, before), ReplyValue::Count(got)) => if got
            >= plan.needed {
            counted(s, entry, plan, before, got, true)
        } else {
            at(
                s,
                StageValue::Rechecking(entry, plan, before, got),
                Seq::empty(),
                QueryValue::Clients,
            )
        },
        (StageValue::Rechecking(_, plan, before, got), ReplyValue::Clients(clients)) => counted(
            s,
            entry,
            plan,
            before,
            got,
            open_count(clients, plan.class) >= before + plan.needed,
        ),
        _ => launched(s, entry, reply),
    }
}

/// What follows while the columns of a workspace are put in order.
pub open spec fn sorted<W>(
    s: RestoreState<W>,
    entry: WorkspaceEntry<W>,
    sub: reorder::StageValue<W>,
    reply: ReplyValue,
) -> Advance<W> {
    let next = reorder::followed(sub, entry.workspace, entry.windows@, reply);
    match next.turn.query {
        QueryValue::Finish(Ok(_)) => begin(s, next.turn.commands),
        QueryValue::Finish(Err(e)) => passed_over(s, entry, e, next.turn.commands),
        query => at(s, StageValue::Reordering(entry, next.stage), next.turn.commands, query),
    }
}

/// What follows while stray windows are moved.
pub open spec fn swept<W>(
    s: RestoreState<W>,
    sub: sweep::StageValue<W>,
    reply: ReplyValue,
) -> Advance<W> {
    let next = sweep::followed(sub, s.workspaces, s.addresses, reply);
    match next.turn.query {
        QueryValue::Finish(Ok(_)) => wind_up(s, next.turn.commands),
        QueryValue::Finish(Err(e)) => wind_up(
            s,
            next.turn.commands.push(CommandValue::Warn(messages::sweep_failed_text(e))),
        ),
        query => at(s, StageValue::Sweeping(next.stage), next.turn.commands, query),
    }
}

/// What follows once the last workspace has been focused, or could not be.
pub open spec fn refocused<W>(s: RestoreState<W>, reply: ReplyValue) -> Advance<W> {
    let told = match reply {
        ReplyValue::Done => Seq::empty(),
        _ => seq![CommandValue::Warn(messages::refocus_failed_text(protocol::failure(reply)))],
    };
    at(
        s,
        StageValue::Over,
        told.push(CommandValue::Progress("restore complete"@)),
        QueryValue::Finish(Ok(())),
    )
}

/// The workspace that a stage works on.
pub open spec fn workspace_at<W>(stage: StageValue<W>) -> Option<WorkspaceEntry<W>> {
    match stage {
        StageValue::Focusing(e) => Some(e),
        StageValue::Counting(e, _) => Some(e),
        StageValue::Resolving(e, _, _) => Some(e),
        StageValue::SpawningAll(e, _, _, _) => Some(e),
        StageValue::WaitingAll(e, _, _) => Some(e),
        StageValue::Rechecking(e, _, _, _) => Some(e),
        StageValue::Launching(e, _) => Some(e),
        StageValue::Spawning(e, _, _) => Some(e),
        StageValue::Waiting(e, _, _) => Some(e),
        StageValue::Confirming(e, _, _) => Some(e),
        StageValue::Reordering(e, _) => Some(e),
        _ => None,
    }
}

/// What follows a state.
pub open spec fn followed<W>(s: RestoreState<W>, reply: ReplyValue) -> Advance<W> {
    match s.stage {
        StageValue::Over => at(s, s.stage, Seq::empty(), QueryValue::Finish(Ok(()))),
        StageValue::Refocusing => refocused(s, reply),
        StageValue::Sweeping(sub) => swept(s, sub, reply),
        StageValue::Reordering(entry, sub) => sorted(s, entry, sub, reply),
        _ => match workspace_at(s.stage) {
            Some(entry) => populated(s, entry, reply),
            None => prepared(s, reply),
        },
    }
}

fn no_commands<W>() -> (r: Vec<Command<W>>)
    ensures
        protocol::command_values(r@) == Seq::<CommandValue<W>>::empty(),
{
    let r: Vec<Command<W>> = Vec::new();
    assert(protocol::command_values(r@) =~= Seq::<CommandValue<W>>::empty());
    r
}

fn one_command<W>(command: Command<W>) -> (r: Vec<Command<W>>)
    ensures
        protocol::command_values(r@) == seq![command@],
{
    let mut r: Vec<Command<W>> = Vec::new();
    r.push(command);
    assert(protocol::command_values(r@) =~= seq![command@]);
    r
}

fn append_commands<W>(commands: Vec<Command<W>>, more: Vec<Command<W>>) -> (r: Vec<Command<W>>)
    ensures
        protocol::command_values(r@) == protocol::command_values(commands@)
            + protocol::command_values(more@),
{
    let mut commands = commands;
    let mut more = more;
    let ghost was = protocol::command_values(commands@);
    let ghost added = protocol::command_values(more@);
    commands.append(&mut more);
    assert(protocol::command_values(commands@) =~= was + added);
    commands
}

fn argv(command: &Vec<String>, args: &Vec<String>) -> (r: Vec<String>)
    ensures
        text::texts(r@) == text::texts(command@) + text::texts(args@),
{
    let mut out: Vec<String> = Vec::new();
    let mut i: usize = 0;
    while i < command.len()
        invariant
            0 <= i <= command@.len(),
            out@.len() == i,
            forall|j: int| 0 <= j < i ==> (#[trigger] out@[j])@ == command@[j]@,
        decreases command@.len() - i,
    {
        let part: String = command[i].clone();
        out.push(part);
        i += 1;
    }
    let mut k: usize = 0;
    while k < args.len()
        invariant
            0 <= k <= args@.len(),
            out@.len() == command@.len() + k,
            forall|j: int| 0 <= j < command@.len() ==> (#[trigger] out@[j])@ == command@[j]@,
            forall|j: int|
                command@.len() <= j < command@.len() + k ==> (#[trigger] out@[j])@
                    == args@[j - command@.len()]@,
        decreases args@.len() - k,
    {
        let part: String = args[k].clone();
        out.push(part);
        k += 1;
    }
    assert(text::texts(out@) =~= text::texts(command@) + text::texts(args@));
    out
}

/// The program of a command.
pub(crate) fn program_of(command: &Vec<String>) -> (r: String)
    ensures
        r@ == program(text::texts(command@)),
{
    if command.len() > 0 {
        assert(text::texts(command@)[0] == command@[0]@);
        command[0].clone()
    } else {
        "".to_owned()
    }
}

fn launch_number(launch: &Launch) -> (r: usize)
    ensures
        r == number(launch@),
{
    if launch.rest <= launch.plan.needed {
        launch.plan.needed - launch.rest
    } else {
        0
    }
}

impl<'a, W: Copy> Restore<'a, W> {
    fn begin(&mut self, commands: Vec<Command<W>>) -> (r: Turn<W>)
        ensures
            final(self)@ == begin(old(self)@, protocol::command_values(commands@)).state,
            r@ == begin(old(self)@, protocol::command_values(commands@)).turn,
    {
        let mut commands = commands;
        if self.begun < self.workspaces.len() {
            let entry: &'a WorkspaceEntry<W> = self.workspaces[self.begun];
            assert(self@.workspaces[self.begun as int] == *entry);
            protocol::push(
                &mut commands,
                Command::Progress(messages::workspace(entry.workspace, entry.windows.len())),
            );
            if self.cfg.overlay {
                let line: String = messages::overlay(self.begun + 1, self.workspaces.len());
                protocol::push(&mut commands, Command::OverlayProgress(line));
            }
            protocol::push(&mut commands, Command::FocusWorkspace(entry.workspace));
            protocol::push(&mut commands, Command::Sleep(FOCUS_MS));
            self.begun = self.begun + 1;
            self.stage = Stage::Focusing(entry);
            Turn { commands, query: Query::Nothing }
        } else {
            let (sub, turn) = Sweep::start(self.cfg.settle_delay_secs);
            self.stage = Stage::Sweeping(sub);
            Turn { commands: append_commands(commands, turn.commands), query: turn.query }
        }
    }

    fn next_plan(&mut self, entry: &'a WorkspaceEntry<W>, commands: Vec<Command<W>>) -> (r: Turn<W>)
        ensures
            final(self)@ == next_plan(
                old(self)@,
                *entry,
                protocol::command_values(commands@),
            ).state,
            r@ == next_plan(old(self)@, *entry, protocol::command_values(commands@)).turn,
    {
        let mut commands = commands;
        let ghost given = protocol::command_values(commands@);
        let mut plans: Vec<ClassPlan> = Vec::new();
        std::mem::swap(&mut plans, &mut self.plans);
        let ghost all = plan::plan_values(plans@);
        let ghost told = given + protocol::debug_commands::<W>(covered_notes(all));
        while plans.len() > 0 && plans[0].needed == 0
            invariant
                uncovered(plan::plan_values(plans@)) == uncovered(all),
                protocol::command_values(commands@) + protocol::debug_commands::<W>(
                    covered_notes(plan::plan_values(plans@)),
                ) == told,
            decreases plans@.len(),
        {
            let ghost was = plan::plan_values(plans@);
            let ghost before = protocol::command_values(commands@);
            assert(was[0] == plans@[0]@);
            let next: ClassPlan = plans.remove(0);
            assert(plan::plan_values(plans@) =~= was.skip(1));
            let note: String = messages::covered(next.class.as_str(), next.saved_count);
            protocol::push(&mut commands, Command::Debug(note));
            assert(before.push(CommandValue::Debug(note@)) + protocol::debug_commands::<W>(
                covered_notes(was.skip(1)),
            ) =~= before + protocol::debug_commands::<W>(covered_notes(was)));
        }
        assert(protocol::command_values(commands@) =~= told);
        let ghost left = plan::plan_values(plans@);
        if plans.len() > 0 {
            assert(left[0] == plans@[0]@);
            let next: ClassPlan = plans.remove(0);
            assert(plan::plan_values(plans@) =~= left.skip(1));
            self.plans = plans;
            self.stage = Stage::Counting(entry, next);
            Turn { commands, query: Query::Clients }
        } else {
            self.plans = plans;
            let (sub, turn) = Reorder::start(entry.workspace);
            self.stage = Stage::Reordering(entry, sub);
            Turn { commands: append_commands(commands, turn.commands), query: turn.query }
        }
    }

    fn next_launch(
        &mut self,
        entry: &'a WorkspaceEntry<W>,
        launch: Launch,
        left: usize,
        commands: Vec<Command<W>>,
    ) -> (r: Turn<W>)
        ensures
            final(self)@ == next_launch(
                old(self)@,
                *entry,
                launch@,
                left as nat,
                protocol::command_values(commands@),
            ).state,
            r@ == next_launch(
                old(self)@,
                *entry,
                launch@,
                left as nat,
                protocol::command_values(commands@),
            ).turn,
    {
        let mut commands = commands;
        let mut launch = launch;
        if left > 0 {
            launch.rest = left - 1;
            self.stage = Stage::Launching(entry, launch);
            Turn { commands, query: Query::Clients }
        } else {
            protocol::push(&mut commands, Command::Sleep(CLASS_MS));
            self.next_plan(entry, commands)
        }
    }

    fn pass_over(&mut self, entry: &'a WorkspaceEntry<W>, e: String, commands: Vec<Command<W>>) -> (
    r: Turn<W>)
        ensures
            final(self)@ == passed_over(
                old(self)@,
                *entry,
                e@,
                protocol::command_values(commands@),
            ).state,
            r@ == passed_over(old(self)@, *entry, e@, protocol::command_values(commands@)).turn,
    {
        let mut commands = commands;
        protocol::push(
            &mut commands,
            Command::Warn(messages::workspace_failed(entry.workspace, e.as_str())),
        );
        self.begin(commands)
    }

    fn wind_up(&mut self, commands: Vec<Command<W>>) -> (r: Turn<W>)
        ensures
            final(self)@ == wind_up(old(self)@, protocol::command_values(commands@)).state,
            r@ == wind_up(old(self)@, protocol::command_values(commands@)).turn,
    {
        let mut commands = commands;
        if self.cfg.overlay {
            protocol::push(&mut commands, Command::KillOverlay);
        }
        protocol::push(&mut commands, Command::FocusWorkspace(self.target));
        self.stage = Stage::Refocusing;
        Turn { commands, query: Query::Nothing }
    }

    fn resolve(
        &mut self,
        entry: &'a WorkspaceEntry<W>,
        plan: ClassPlan,
        before: usize,
        command: Option<Vec<String>>,
    ) -> (r: Turn<W>)
        ensures
            final(self)@ == resolved(
                old(self)@,
                *entry,
                plan@,
                before as nat,
                match command {
                    Some(c) => Some(text::texts(c@)),
                    None => None,
                },
            ).state,
            r@ == resolved(
                old(self)@,
                *entry,
                plan@,
                before as nat,
                match command {
                    Some(c) => Some(text::texts(c@)),
                    None => None,
                },
            ).turn,
    {
        match command {
            None => {
                let told: String = messages::no_binary(plan.class.as_str(), plan.exe.as_str());
                self.next_plan(entry, one_command(Command::Warn(told)))
            },
            Some(command) => {
                if plan.session_restore {
                    let query: Query<W> = Query::Spawn(argv(&command, &plan.launch_args));
                    self.stage = Stage::SpawningAll(entry, plan, program_of(&command), before);
                    Turn { commands: no_commands(), query }
                } else {
                    let needed: usize = plan.needed;
                    let launch = Launch { plan, command, before, rest: 0 };
                    self.next_launch(entry, launch, needed, no_commands())
                }
            },
        }
    }

    /// Takes the answer to the last query and gives the next turn.
    pub fn follow(&mut self, reply: Reply) -> (r: Turn<W>)
        ensures
            final(self)@ == followed(old(self)@, reply@).state,
            r@ == followed(old(self)@, reply@).turn,
    {
        let mut stage: Stage<'a, W> = Stage::Over;
        std::mem::swap(&mut stage, &mut self.stage);
        match stage {
            Stage::Over => Turn { commands: no_commands(), query: Query::Finish(Ok(())) },
            Stage::Refocusing => self.refocus(reply),
            Stage::Sweeping(sub) => self.sweep(sub, reply),
            Stage::Reordering(entry, sub) => self.sort(entry, sub, reply),
            Stage::Locking | Stage::Snapshotting | Stage::Subscribing => self.prepare(stage, reply),
            Stage::Launching(entry, _)
            | Stage::Spawning(entry, _, _)
            | Stage::Waiting(entry, _, _)
            | Stage::Confirming(entry, _, _) => self.launch(stage, entry, reply),
            Stage::Focusing(entry)
            | Stage::Counting(entry, _)
            | Stage::Resolving(entry, _, _)
            | Stage::SpawningAll(entry, _, _, _)
            | Stage::WaitingAll(entry, _, _)
            | Stage::Rechecking(entry, _, _, _) => self.populate(stage, entry, reply),
        }
    }

    fn refocus(&mut self, reply: Reply) -> (r: Turn<W>)
        ensures
            final(self)@ == refocused(old(self)@, reply@).state,
            r@ == refocused(old(self)@, reply@).turn,
    {
        let mut commands: Vec<Command<W>> = no_commands();
        match reply {
            Reply::Done => {},
            reply => {
                let e: String = protocol::failure_text(reply);
                let told: String = text::join2("could not refocus workspace: ", e.as_str());
                commands = one_command(Command::Warn(told));
            },
        }
        protocol::push(&mut commands, Command::Progress("restore complete".to_owned()));
        self.stage = Stage::Over;
        Turn { commands, query: Query::Finish(Ok(())) }
    }

    fn sweep(&mut self, sub: Sweep<W>, reply: Reply) -> (r: Turn<W>)
        ensures
            final(self)@ == swept(old(self)@, sub.stage@, reply@).state,
            r@ == swept(old(self)@, sub.stage@, reply@).turn,
    {
        let mut sub = sub;
        let turn: Turn<W> = sub.fix_stray_windows(&self.workspaces, &self.addresses, reply);
        let mut commands: Vec<Command<W>> = turn.commands;
        match turn.query {
            Query::Finish(Ok(_)) => self.wind_up(commands),
            Query::Finish(Err(e)) => {
                let told: String = text::join2("stray-window sweep failed: ", e.as_str());
                protocol::push(&mut commands, Command::Warn(told));
                self.wind_up(commands)
            },
            query => {
                self.stage = Stage::Sweeping(sub);
                Turn { commands, query }
            },
        }
    }

    fn sort(&mut self, entry: &'a WorkspaceEntry<W>, sub: Reorder<W>, reply: Reply) -> (r: Turn<W>)
        ensures
            final(self)@ == sorted(old(self)@, *entry, sub.stage@, reply@).state,
            r@ == sorted(old(self)@, *entry, sub.stage@, reply@).turn,
    {
        let mut sub = sub;
        let turn: Turn<W> = sub.reorder_columns(entry.workspace, &entry.windows, reply);
        let commands: Vec<Command<W>> = turn.commands;
        match turn.query {
            Query::Finish(Ok(_)) => self.begin(commands),
            Query::Finish(Err(e)) => self.pass_over(entry, e, commands),
            query => {
                self.stage = Stage::Reordering(entry, sub);
                Turn { commands, query }
            },
        }
    }

    fn prepare(&mut self, stage: Stage<'a, W>, reply: Reply) -> (r: Turn<W>)
        ensures
            ({
                let s = RestoreState { stage: stage@, ..old(self)@ };
                &&& final(self)@ == prepared(s, reply@).state
                &&& r@ == prepared(s, reply@).turn
            }),
    {
        match (stage, reply) {
            (Stage::Locking, Reply::Done) => {
                self.stage = Stage::Snapshotting;
                Turn { commands: no_commands(), query: Query::Clients }
            },
            (Stage::Snapshotting, Reply::Clients(clients)) => {
                let snapshot: live::Snapshot = live::snapshot(&clients);
                self.pre_existing = snapshot.counts;
                self.addresses = snapshot.addresses;
                self.stage = Stage::Subscribing;
                Turn { commands: no_commands(), query: Query::Subscribe }
            },
            (Stage::Subscribing, Reply::Done) => self.begin(no_commands()),
            (_, reply) => {
                self.stage = Stage::Over;
                Turn {
                    commands: no_commands(),
                    query: Query::Finish(Err(protocol::failure_text(reply))),
                }
            },
        }
    }

    fn launch(&mut self, stage: Stage<'a, W>, entry: &'a WorkspaceEntry<W>, reply: Reply) -> (r:
        Turn<W>)
        ensures
            ({
                let s = RestoreState { stage: stage@, ..old(self)@ };
                &&& final(self)@ == launched(s, *entry, reply@).state
                &&& r@ == launched(s, *entry, reply@).turn
            }),
    {
        match (stage, reply) {
            (Stage::Launching(_, l), Reply::Clients(clients)) => {
                let current: usize = live::count_class(&clients, l.plan.class.as_str());
                if current >= l.plan.needed && current - l.plan.needed >= l.before {
                    let left: usize = l.rest;
                    let told: String = messages::already(
                        l.plan.class.as_str(),
                        launch_number(&l),
                        l.plan.needed,
                        current,
                    );
                    self.next_launch(entry, l, left, one_command(Command::Debug(told)))
                } else {
                    let query: Query<W> = Query::Spawn(argv(&l.command, &l.plan.launch_args));
                    self.stage = Stage::Spawning(entry, l, current);
                    Turn { commands: no_commands(), query }
                }
            },
            (Stage::Spawning(_, l, current), Reply::Done) => {
                let class: String = l.plan.class.clone();
                self.stage = Stage::Waiting(entry, l, current);
                Turn { commands: no_commands(), query: Query::Wait { class, count: 1 } }
            },
            (Stage::Spawning(_, l, _), reply) => {
                let e: String = protocol::failure_text(reply);
                let program: String = program_of(&l.command);
                let told: String = messages::launch_failed(
                    l.plan.class.as_str(),
                    launch_number(&l),
                    l.plan.needed,
                    program.as_str(),
                    e.as_str(),
                );
                let left: usize = l.rest;
                self.next_launch(entry, l, left, one_command(Command::Warn(told)))
            },
            (Stage::Waiting(_, l, current), Reply::Count(got)) => {
                if got == 0 {
                    self.stage = Stage::Confirming(entry, l, current);
                    Turn { commands: no_commands(), query: Query::Clients }
                } else {
                    let left: usize = l.rest;
                    self.next_launch(entry, l, left, no_commands())
                }
            },
            (Stage::Confirming(_, l, current), Reply::Clients(clients)) => {
                let left: usize = l.rest;
                if live::count_class(&clients, l.plan.class.as_str()) <= current {
                    let told: String = messages::timeout(
                        l.plan.class.as_str(),
                        launch_number(&l),
                        l.plan.needed,
                    );
                    self.next_launch(entry, l, left, one_command(Command::Note(told)))
                } else {
                    self.next_launch(entry, l, left, no_commands())
                }
            },
            (_, reply) => self.pass_over(entry, protocol::failure_text(reply), no_commands()),
        }
    }

    fn count(
        &mut self,
        entry: &'a WorkspaceEntry<W>,
        plan: &ClassPlan,
        before: usize,
        got: usize,
        converged: bool,
    ) -> (r: Turn<W>)
        ensures
            final(self)@ == counted(
                old(self)@,
                *entry,
                plan@,
                before as nat,
                got as nat,
                converged,
            ).state,
            r@ == counted(
                old(self)@,
                *entry,
                plan@,
                before as nat,
                got as nat,
                converged,
            ).turn,
    {
        let total: usize = if got <= usize::MAX - before {
            before + got
        } else {
            usize::MAX
        };
        let told: String = messages::appeared(
            plan.class.as_str(),
            got,
            plan.needed,
            total,
            converged,
        );
        let mut commands: Vec<Command<W>> = one_command(Command::Debug(told));
        protocol::push(&mut commands, Command::Sleep(CLASS_MS));
        assert(protocol::command_values(commands@) =~= seq![
            CommandValue::Debug(told@),
            CommandValue::Sleep(CLASS_MS),
        ]);
        self.next_plan(entry, commands)
    }

    fn populate(&mut self, stage: Stage<'a, W>, entry: &'a WorkspaceEntry<W>, reply: Reply) -> (r:
        Turn<W>)
        ensures
            ({
                let s = RestoreState { stage: stage@, ..old(self)@ };
                &&& final(self)@ == populated(s, *entry, reply@).state
                &&& r@ == populated(s, *entry, reply@).turn
            }),
    {
        match (stage, reply) {
            (Stage::Focusing(_), Reply::Done) => {
                self.plans = plan::plan_workspace(
                    entry,
                    &mut self.pre_existing,
                    self.cfg,
                    self.extra_restore_apps,
                );
                self.next_plan(entry, no_commands())
            },
            (Stage::Counting(_, plan), Reply::Clients(clients)) => {
                let before: usize = live::count_class(&clients, plan.class.as_str());
                let query: Query<W> = Query::Resolve {
                    class: plan.class.clone(),
                    exe: plan.exe.clone(),
                };
                let told: String = messages::counts(
                    plan.class.as_str(),
                    plan.saved_count,
                    plan.pre,
                    plan.needed,
                    before,
                );
                self.stage = Stage::Resolving(entry, plan, before);
                Turn { commands: one_command(Command::Debug(told)), query }
            },
            (Stage::Resolving(_, plan, before), Reply::Command(command)) => self.resolve(
                entry,
                plan,
                before,
                command,
            ),
            (Stage::SpawningAll(_, plan, _, before), Reply::Done) => {
                let query: Query<W> = Query::Wait {
                    class: plan.class.clone(),
                    count: plan.needed,
                };
                self.stage = Stage::WaitingAll(entry, plan, before);
                Turn { commands: no_commands(), query }
            },
            (Stage::SpawningAll(_, plan, program, _), reply) => {
                let e: String = protocol::failure_text(reply);
                let told: String = messages::spawn_failed(
                    plan.class.as_str(),
                    program.as_str(),
                    e.as_str(),
                );
                self.next_plan(entry, one_command(Command::Warn(told)))
            },
            (Stage::WaitingAll(_, plan, before), Reply::Count(got)) => {
                if got >= plan.needed {
                    self.count(entry, &plan, before, got, true)
                } else {
                    self.stage = Stage::Rechecking(entry, plan, before, got);
                    Turn { commands: no_commands(), query: Query::Clients }
                }
            },
            (Stage::Rechecking(_, plan, before, got), Reply::Clients(clients)) => {
                let open: usize = live::count_class(&clients, plan.class.as_str());
                let converged: bool = open >= plan.needed && open - plan.needed >= before;
                self.count(entry, &plan, before, got, converged)
            },
            (stage, reply) => self.launch(stage, entry, reply),
        }
    }
}

/// Starts the restore of a session, or of its workspace `only`. Where the session
/// does not have that workspace, the message to tell comes back instead.
pub fn run<'a, W: Copy>(
    session: &'a Session<W>,
    name: &str,
    extra_restore_apps: &'a [String],
    cfg: &'a Config,
    only: Option<i32>,
) -> (r: Result<(Restore<'a, W>, Turn<W>), String>)
    ensures
        match r {
            Ok((restore, turn)) => {
                let first = first_turn(
                    *session,
                    name@,
                    text::texts(extra_restore_apps@),
                    cfg@,
                    only,
                );
                restore@ == first.state && turn@ == first.turn
            },
            Err(e) => only is Some && e@ == messages::not_found_text(only->0, Some(name@)),
        },
        r is Err <==> only is Some && plan::selected(session.workspaces@, only).len() == 0,
{
    match plan::select_workspaces(session, only) {
        None => {
            let id: i32 = match only {
                Some(id) => id,
                None => 0,
            };
            Err(messages::not_found(id, Some(name)))
        },
        Some(workspaces) => {
            let mut commands: Vec<Command<W>> = one_command(
                Command::Progress(messages::restoring(name, only)),
            );
            if cfg.overlay {
                protocol::push(&mut commands, Command::SpawnOverlay);
            }
            let target: i32 = match only {
                Some(id) => id,
                None => session.active_workspace,
            };
            let restore = Restore {
                workspaces,
                cfg,
                extra_restore_apps,
                target,
                begun: 0,
                pre_existing: ClassMap::new(),
                addresses: TextSet::new(),
                plans: Vec::new(),
                stage: Stage::Locking,
            };
            assert(plan::plan_values(restore.plans@) =~= Seq::<PlanValue>::empty());
            Ok((restore, Turn { commands, query: Query::AcquireLock }))
        },
    }
}

} // verus!
