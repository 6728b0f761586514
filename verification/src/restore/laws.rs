//! What holds of a restore as a whole.

use vstd::prelude::*;

use crate::config::Settings;
use crate::hyprland::HyprClient;
use crate::restore::protocol::{CheckValue, CommandValue, QueryValue, ReplyValue};
use crate::restore::run::{self, LaunchValue, RestoreState, StageValue};
use crate::restore::{columns, live, messages, plan, protocol, reorder, stray, sweep, tally};
use crate::session::{Session, WindowEntry, WorkspaceEntry};

verus! {

/// Whether a restore is still getting ready.
pub open spec fn is_preparing<W>(stage: StageValue<W>) -> bool {
    stage is Locking || stage is Snapshotting || stage is Subscribing
}

/// Whether a program is being started. A program that does not start fails alone.
pub open spec fn is_starting<W>(stage: StageValue<W>) -> bool {
    stage is SpawningAll || stage is Spawning
}

/// A workspace that fails is told and passed over: the restore goes on with the
/// next one, or with the sweep after the last.
pub proof fn law_failed_workspaces_are_passed_over<W>(s: RestoreState<W>, e: Seq<char>)
    requires
        run::workspace_at(s.stage) is Some,
        !is_starting(s.stage),
    ensures
        run::followed(s, ReplyValue::Failed(e)) == run::begin(
            s,
            seq![
                CommandValue::Warn(
                    messages::workspace_failed_text(
                        run::workspace_at(s.stage)->0.workspace,
                        e,
                    ),
                ),
            ],
        ),
{
    let entry = run::workspace_at(s.stage)->0;
    let told = CommandValue::<W>::Warn(messages::workspace_failed_text(entry.workspace, e));
    assert(Seq::<CommandValue<W>>::empty().push(told) =~= seq![told]);
}

/// A restore fails only while it gets ready, and fails there with what went wrong.
pub proof fn law_only_preparation_fails<W>(s: RestoreState<W>, reply: ReplyValue)
    ensures
        run::followed(s, reply).turn.query matches QueryValue::Finish(Err(_)) ==> is_preparing(
            s.stage,
        ),
        is_preparing(s.stage) && reply is Failed ==> run::followed(s, reply).turn.query
            == QueryValue::<W>::Finish(Err(reply->Failed_0)),
{
}

/// Whether the workspaces before the current one have been begun, in order, and
/// all of them before the sweep.
pub open spec fn in_sequence<W>(s: RestoreState<W>) -> bool {
    &&& s.begun <= s.workspaces.len()
    &&& match run::workspace_at(s.stage) {
        Some(entry) => s.begun > 0 && s.workspaces[s.begun - 1] == entry,
        None => true,
    }
    &&& is_preparing(s.stage) ==> s.begun == 0
    &&& s.stage is Sweeping || s.stage is Refocusing ==> s.begun == s.workspaces.len()
}

/// The workspaces are restored one after another in the order of the session, and
/// none is left out.
pub proof fn law_workspaces_are_restored_in_sequence<W>(s: RestoreState<W>, reply: ReplyValue)
    requires
        in_sequence(s),
    ensures
        in_sequence(run::followed(s, reply).state),
        run::followed(s, reply).state.workspaces == s.workspaces,
        s.begun <= run::followed(s, reply).state.begun <= s.begun + 1,
        run::followed(s, reply).turn.query == QueryValue::<W>::Finish(Ok(())) && s.stage !is Over
            ==> s.begun == s.workspaces.len(),
{
}

/// A restore starts before the first workspace, and is to end on the workspace that
/// it is restricted to, else on the one that had the focus.
pub proof fn law_restore_starts_in_sequence<W>(
    session: Session<W>,
    name: Seq<char>,
    extra: Seq<Seq<char>>,
    settings: Settings,
    only: Option<i32>,
)
    ensures
        in_sequence(run::first_turn(session, name, extra, settings, only).state),
        run::first_turn(session, name, extra, settings, only).state.target == (match only {
            Some(id) => id,
            None => session.active_workspace,
        }),
{
}

/// A workspace that is begun is focused.
pub proof fn law_begun_workspaces_are_focused<W>(s: RestoreState<W>, reply: ReplyValue)
    requires
        run::followed(s, reply).state.begun > s.begun,
    ensures
        ({
            let next = run::followed(s, reply);
            &&& next.turn.commands.contains(
                CommandValue::FocusWorkspace(s.workspaces[s.begun as int].workspace),
            )
            &&& next.state.stage == StageValue::Focusing(s.workspaces[s.begun as int])
        }),
{
    let commands = run::followed(s, reply).turn.commands;
    assert(commands[commands.len() - 2] == CommandValue::<W>::FocusWorkspace(
        s.workspaces[s.begun as int].workspace,
    ));
}

/// A restore that is not given up ends on the workspace that it is to end on.
pub proof fn law_restore_ends_on_its_target<W>(s: RestoreState<W>, reply: ReplyValue)
    ensures
        run::followed(s, reply).state.target == s.target,
        run::followed(s, reply).state.stage is Refocusing ==> run::followed(
            s,
            reply,
        ).turn.commands.last() == CommandValue::<W>::FocusWorkspace(s.target),
        run::followed(s, reply).turn.query == QueryValue::<W>::Finish(Ok(())) ==> s.stage
            is Refocusing || s.stage is Over,
{
}

/// How far a restore is from its end, in lexicographic order.
pub open spec fn distance<W>(s: RestoreState<W>) -> (nat, nat, nat, nat, nat, nat) {
    let left: nat = if s.begun < s.workspaces.len() {
        (s.workspaces.len() - s.begun) as nat
    } else {
        0
    };
    let plans = s.plans.len();
    match s.stage {
        StageValue::Locking => (6, 0, 0, 0, 0, 0),
        StageValue::Snapshotting => (5, 0, 0, 0, 0, 0),
        StageValue::Subscribing => (4, 0, 0, 0, 0, 0),
        StageValue::Focusing(_) => (3, left, 3, 0, 0, 0),
        StageValue::Counting(_, p) => (3, left, 2, plans, p.needed + 2, 1),
        StageValue::Resolving(_, p, _) => (3, left, 2, plans, p.needed + 2, 0),
        StageValue::SpawningAll(_, _, _, _) => (3, left, 2, plans, 1, 2),
        StageValue::WaitingAll(_, _, _) => (3, left, 2, plans, 1, 1),
        StageValue::Rechecking(_, _, _, _) => (3, left, 2, plans, 1, 0),
        StageValue::Launching(_, l) => (3, left, 2, plans, l.rest + 1, 3),
        StageValue::Spawning(_, l, _) => (3, left, 2, plans, l.rest + 1, 2),
        StageValue::Waiting(_, l, _) => (3, left, 2, plans, l.rest + 1, 1),
        StageValue::Confirming(_, l, _) => (3, left, 2, plans, l.rest + 1, 0),
        StageValue::Reordering(_, sub) => (3, left, 1, 0, 0, reorder::turns_left(sub)),
        StageValue::Sweeping(sub) => match sub {
            sweep::StageValue::Settling => (2, 3, 0, 0, 0, 0),
            sweep::StageValue::Moving(_) => (2, 2, 0, 0, 0, 0),
            sweep::StageValue::Sorting(_, rest, sub) => (
                2,
                1,
                rest.len(),
                reorder::turns_left(sub),
                0,
                0,
            ),
            sweep::StageValue::Over => (2, 0, 0, 0, 0, 0),
        },
        StageValue::Refocusing => (1, 0, 0, 0, 0, 0),
        StageValue::Over => (0, 0, 0, 0, 0, 0),
    }
}

/// Lexicographic order.
pub open spec fn less(
    a: (nat, nat, nat, nat, nat, nat),
    b: (nat, nat, nat, nat, nat, nat),
) -> bool {
    ||| a.0 < b.0
    ||| a.0 == b.0 && a.1 < b.1
    ||| a.0 == b.0 && a.1 == b.1 && a.2 < b.2
    ||| a.0 == b.0 && a.1 == b.1 && a.2 == b.2 && a.3 < b.3
    ||| a.0 == b.0 && a.1 == b.1 && a.2 == b.2 && a.3 == b.3 && a.4 < b.4
    ||| a.0 == b.0 && a.1 == b.1 && a.2 == b.2 && a.3 == b.3 && a.4 == b.4 && a.5 < b.5
}

proof fn lemma_uncovered(plans: Seq<plan::PlanValue>)
    ensures
        run::uncovered(plans).len() <= plans.len(),
        run::uncovered(plans).len() > 0 ==> run::uncovered(plans)[0].needed > 0,
    decreases plans.len(),
{
    if plans.len() > 0 && plans[0].needed == 0 {
        lemma_uncovered(plans.skip(1));
    }
}

/// Every answer brings a restore nearer to its end.
#[verifier::rlimit(60)]
#[verifier::spinoff_prover]
pub proof fn law_every_answer_leads_on<W>(s: RestoreState<W>, reply: ReplyValue)
    requires
        s.stage !is Over,
    ensures
        less(distance(run::followed(s, reply).state), distance(s)),
{
    lemma_uncovered(s.plans);
    match s.stage {
        StageValue::Reordering(entry, sub) => {
            if sub !is Over {
                reorder::law_reorder_ends(sub, entry.workspace, entry.windows@, reply);
            }
        },
        StageValue::Sweeping(sweep::StageValue::Sorting(id, rest, sub)) => {
            if sub !is Over {
                reorder::law_reorder_ends(sub, id, sweep::saved_on(s.workspaces, id), reply);
            }
        },
        _ => {},
    }
}

/// A restore after `n` answers.
pub open spec fn after<W>(
    s: RestoreState<W>,
    replies: spec_fn(nat) -> ReplyValue,
    n: nat,
) -> RestoreState<W>
    decreases n,
{
    if n == 0 {
        s
    } else {
        run::followed(after(s, replies, (n - 1) as nat), replies((n - 1) as nat)).state
    }
}

/// A restore ends, whatever the answers are: from any point, a number of answers
/// leads to the end.
pub proof fn law_restore_ends<W>(
    s: RestoreState<W>,
    replies: spec_fn(nat) -> ReplyValue,
    from: nat,
) -> (n: nat)
    ensures
        n >= from,
        after(s, replies, n).stage is Over,
    decreases
            distance(after(s, replies, from)).0,
            distance(after(s, replies, from)).1,
            distance(after(s, replies, from)).2,
            distance(after(s, replies, from)).3,
            distance(after(s, replies, from)).4,
            distance(after(s, replies, from)).5,
{
    let now = after(s, replies, from);
    if now.stage is Over {
        from
    } else {
        law_every_answer_leads_on(now, replies(from));
        assert(after(s, replies, from + 1) == run::followed(now, replies(from)).state);
        law_restore_ends(s, replies, from + 1)
    }
}

/// Whatever the answers are, a restore goes through the selected workspaces in
/// order, keeps the workspace that it is to end on, and launches only what is
/// missing.
pub proof fn law_restore_stays_in_sequence<W>(
    session: Session<W>,
    name: Seq<char>,
    extra: Seq<Seq<char>>,
    settings: Settings,
    only: Option<i32>,
    replies: spec_fn(nat) -> ReplyValue,
    n: nat,
)
    ensures
        ({
            let first = run::first_turn(session, name, extra, settings, only).state;
            let s = after(first, replies, n);
            &&& in_sequence(s)
            &&& is_needed(s.stage)
            &&& s.workspaces == plan::selected(session.workspaces@, only)
            &&& s.target == first.target
        }),
    decreases n,
{
    let first = run::first_turn(session, name, extra, settings, only).state;
    if n > 0 {
        let m = (n - 1) as nat;
        law_restore_stays_in_sequence(session, name, extra, settings, only, replies, m);
        let before = after(first, replies, m);
        law_workspaces_are_restored_in_sequence(before, replies(m));
        law_only_missing_windows_are_launched(before, replies(m));
        law_restore_ends_on_its_target(before, replies(m));
    }
}

/// Whether no command moves a window with one of these addresses.
pub open spec fn spares<W>(commands: Seq<CommandValue<W>>, addresses: Set<Seq<char>>) -> bool {
    forall|i: int|
        0 <= i < commands.len() ==> (#[trigger] commands[i] matches CommandValue::MoveTo(a, _)
            ==> !addresses.contains(a))
}

proof fn lemma_swap_steps_spare<W>(steps: nat, addresses: Set<Seq<char>>)
    ensures
        spares(reorder::swap_steps::<W>(steps), addresses),
    decreases steps,
{
    if steps > 0 {
        lemma_swap_steps_spare::<W>((steps - 1) as nat, addresses);
    }
}

proof fn lemma_swaps_spare<W>(ops: Seq<(Seq<char>, nat)>, addresses: Set<Seq<char>>)
    ensures
        spares(reorder::swap_commands::<W>(ops), addresses),
    decreases ops.len(),
{
    if ops.len() > 0 {
        lemma_swaps_spare::<W>(ops.drop_last(), addresses);
        lemma_swap_steps_spare::<W>(ops.last().1, addresses);
    }
}

proof fn lemma_resizes_spare<W>(ops: Seq<(Seq<char>, W)>, addresses: Set<Seq<char>>)
    ensures
        spares(reorder::all_resizes(ops), addresses),
    decreases ops.len(),
{
    if ops.len() > 0 {
        lemma_resizes_spare(ops.drop_last(), addresses);
    }
}

proof fn lemma_reapplied_spare<W>(checks: Seq<CheckValue<W>>, addresses: Set<Seq<char>>)
    ensures
        spares(reorder::all_reapplied(checks), addresses),
    decreases checks.len(),
{
    if checks.len() > 0 {
        lemma_reapplied_spare(checks.drop_last(), addresses);
    }
}

proof fn lemma_reorder_spares<W>(
    stage: reorder::StageValue<W>,
    ws_id: i32,
    windows: Seq<WindowEntry<W>>,
    reply: ReplyValue,
    addresses: Set<Seq<char>>,
)
    ensures
        spares(reorder::followed(stage, ws_id, windows, reply).turn.commands, addresses),
{
    match (stage, reply) {
        (reorder::StageValue::Sorting(n), ReplyValue::Clients(clients)) => {
            let saved = plan::saved_classes(windows);
            let live = live::columns_of(clients, ws_id);
            let ops = columns::arranged(
                saved,
                live,
                columns::positions(saved.len(), live.len()),
            ).ops;
            lemma_swaps_spare::<W>(ops, addresses);
        },
        (reorder::StageValue::Assigning, ReplyValue::Clients(clients)) => {
            lemma_resizes_spare(
                columns::assigned(
                    reorder::saved_pairs(windows),
                    live::columns_of(clients, ws_id),
                    windows.len(),
                ),
                addresses,
            );
        },
        (reorder::StageValue::Comparing(checks), ReplyValue::Settled(settled)) => {
            lemma_reapplied_spare(reorder::unsettled(checks, settled, checks.len()), addresses);
        },
        _ => {},
    }
}

proof fn lemma_moves_spare<W>(moves: Seq<stray::StrayValue>, addresses: Set<Seq<char>>)
    requires
        forall|i: int| 0 <= i < moves.len() ==> !addresses.contains((#[trigger] moves[i]).address),
    ensures
        spares(sweep::move_commands::<W>(moves), addresses),
    decreases moves.len(),
{
    if moves.len() > 0 {
        let front = moves.drop_last();
        assert forall|i: int| 0 <= i < front.len() implies !addresses.contains(
            (#[trigger] front[i]).address,
        ) by {
            assert(front[i] == moves[i]);
        }
        lemma_moves_spare::<W>(front, addresses);
        assert(moves.last() == moves[moves.len() - 1]);
    }
}

proof fn lemma_sweep_spares<W>(
    stage: sweep::StageValue<W>,
    workspaces: Seq<WorkspaceEntry<W>>,
    addresses: Set<Seq<char>>,
    reply: ReplyValue,
)
    ensures
        spares(sweep::followed(stage, workspaces, addresses, reply).turn.commands, addresses),
{
    match (stage, reply) {
        (sweep::StageValue::Settling, ReplyValue::Clients(clients)) => {
            let moves = sweep::moves_for(workspaces, addresses, clients);
            assert forall|i: int| 0 <= i < moves.len() implies !addresses.contains(
                (#[trigger] moves[i]).address,
            ) by {
                stray::law_only_new_windows_are_moved(
                    clients,
                    stray::homes_in(workspaces),
                    addresses,
                    i,
                );
            }
            lemma_moves_spare::<W>(moves, addresses);
        },
        (sweep::StageValue::Sorting(id, _, sub), reply) => {
            lemma_reorder_spares(sub, id, sweep::saved_on(workspaces, id), reply, addresses);
        },
        _ => {},
    }
}

proof fn lemma_next_plan_spares<W>(
    s: RestoreState<W>,
    entry: WorkspaceEntry<W>,
    commands: Seq<CommandValue<W>>,
    addresses: Set<Seq<char>>,
)
    requires
        spares(commands, addresses),
    ensures
        spares(run::next_plan(s, entry, commands).turn.commands, addresses),
{
    let notes = protocol::debug_commands::<W>(run::covered_notes(s.plans));
    assert(spares(notes, addresses));
    assert(spares(commands + notes, addresses));
}

proof fn lemma_next_launch_spares<W>(
    s: RestoreState<W>,
    entry: WorkspaceEntry<W>,
    launch: LaunchValue,
    left: nat,
    commands: Seq<CommandValue<W>>,
    addresses: Set<Seq<char>>,
)
    requires
        spares(commands, addresses),
    ensures
        spares(run::next_launch(s, entry, launch, left, commands).turn.commands, addresses),
{
    if left == 0 {
        lemma_next_plan_spares(
            s,
            entry,
            commands.push(CommandValue::Sleep(run::CLASS_MS)),
            addresses,
        );
    }
}

proof fn lemma_launched_spares<W>(
    s: RestoreState<W>,
    entry: WorkspaceEntry<W>,
    reply: ReplyValue,
    addresses: Set<Seq<char>>,
)
    ensures
        spares(run::launched(s, entry, reply).turn.commands, addresses),
{
    if let Some(l) = launch_at(s.stage) {
        assert forall|commands: Seq<CommandValue<W>>|
            commands.len() <= 1 && spares(commands, addresses) implies spares(
            (#[trigger] run::next_launch(s, entry, l, l.rest, commands)).turn.commands,
            addresses,
        ) by {
            lemma_next_launch_spares(s, entry, l, l.rest, commands, addresses);
        }
    }
}

proof fn lemma_populated_spares<W>(
    s: RestoreState<W>,
    entry: WorkspaceEntry<W>,
    reply: ReplyValue,
    addresses: Set<Seq<char>>,
)
    ensures
        spares(run::populated(s, entry, reply).turn.commands, addresses),
{
    assert forall|t: RestoreState<W>, commands: Seq<CommandValue<W>>|
        commands.len() <= 2 && spares(commands, addresses) implies spares(
        (#[trigger] run::next_plan(t, entry, commands)).turn.commands,
        addresses,
    ) by {
        lemma_next_plan_spares(t, entry, commands, addresses);
    }
    match (s.stage, reply) {
        (StageValue::Resolving(_, p, before), ReplyValue::Command(Some(command))) => {
            let none = Seq::<CommandValue<W>>::empty();
            let launch = LaunchValue { plan: p, command, before, rest: 0 };
            lemma_next_launch_spares(s, entry, launch, p.needed, none, addresses);
        },
        _ => {
            lemma_launched_spares(s, entry, reply, addresses);
        },
    }
}

/// A window that was open before the restore is never moved to another workspace.
pub proof fn law_open_windows_stay_where_they_are<W>(s: RestoreState<W>, reply: ReplyValue)
    ensures
        spares(run::followed(s, reply).turn.commands, s.addresses),
        s.stage !is Snapshotting ==> run::followed(s, reply).state.addresses == s.addresses,
{
    match s.stage {
        StageValue::Reordering(entry, sub) => {
            lemma_reorder_spares(sub, entry.workspace, entry.windows@, reply, s.addresses);
        },
        StageValue::Sweeping(sub) => {
            lemma_sweep_spares(sub, s.workspaces, s.addresses, reply);
        },
        _ => {
            if let Some(entry) = run::workspace_at(s.stage) {
                lemma_populated_spares(s, entry, reply, s.addresses);
            }
        },
    }
}

/// The launch that a stage works on.
pub open spec fn launch_at<W>(stage: StageValue<W>) -> Option<LaunchValue> {
    match stage {
        StageValue::Launching(_, l) => Some(l),
        StageValue::Spawning(_, l, _) => Some(l),
        StageValue::Waiting(_, l, _) => Some(l),
        StageValue::Confirming(_, l, _) => Some(l),
        _ => None,
    }
}

/// Whether what is being launched is needed: windows of the class are missing, and
/// no more launches are left than windows are.
pub open spec fn is_needed<W>(stage: StageValue<W>) -> bool {
    match stage {
        StageValue::Counting(_, p) => p.needed > 0,
        StageValue::Resolving(_, p, _) => p.needed > 0,
        StageValue::SpawningAll(_, p, _, _) => p.needed > 0,
        _ => match launch_at(stage) {
            Some(l) => l.rest < l.plan.needed,
            None => true,
        },
    }
}

/// Nothing is launched for a class whose windows are all open, and no more
/// launches are made than windows are missing.
pub proof fn law_only_missing_windows_are_launched<W>(s: RestoreState<W>, reply: ReplyValue)
    requires
        is_needed(s.stage),
    ensures
        is_needed(run::followed(s, reply).state.stage),
        run::followed(s, reply).turn.query is Spawn ==> is_starting(
            run::followed(s, reply).state.stage,
        ),
{
    lemma_uncovered(s.plans);
    if s.stage is Focusing {
        let windows = run::workspace_at(s.stage)->0.windows@;
        lemma_uncovered(
            plan::plans_for(windows, windows.len(), s.pre_existing, s.settings, s.extra),
        );
    }
}

/// The launches of a class are counted down: each answer leaves the number of
/// launches that follow as it is, or goes on to the next of them.
pub proof fn law_launches_are_counted_down<W>(s: RestoreState<W>, reply: ReplyValue)
    requires
        launch_at(s.stage) is Some,
        launch_at(run::followed(s, reply).state.stage) is Some,
    ensures
        ({
            let l = launch_at(s.stage)->0;
            let next = launch_at(run::followed(s, reply).state.stage)->0;
            &&& next == (LaunchValue { rest: next.rest, ..l })
            &&& run::followed(s, reply).state.stage is Launching ==> next.rest == l.rest - 1
            &&& run::followed(s, reply).state.stage !is Launching ==> next.rest == l.rest
        }),
{
}

/// Where enough windows of a class are open, the app is not launched again.
pub proof fn law_launches_stop_at_the_target<W>(
    s: RestoreState<W>,
    clients: Seq<HyprClient>,
)
    requires
        s.stage is Launching,
        run::open_count(clients, launch_at(s.stage)->0.plan.class) >= launch_at(s.stage)->0.before
            + launch_at(s.stage)->0.plan.needed,
    ensures
        run::followed(s, ReplyValue::Clients(clients)).turn.query !is Spawn,
{
}

/// An app that restores its own windows is started once: it is not launched
/// window by window, and what follows its start is no other start.
pub proof fn law_self_restoring_apps_start_once<W>(s: RestoreState<W>, reply: ReplyValue)
    ensures
        s.stage matches StageValue::Resolving(_, p, _) ==> p.session_restore ==> launch_at(
            run::followed(s, reply).state.stage,
        ) is None,
        s.stage is SpawningAll || s.stage is WaitingAll || s.stage is Rechecking
            ==> run::followed(s, reply).turn.query !is Spawn,
{
}

/// Open windows are taken only for a workspace that could be focused.
pub proof fn law_windows_are_taken_after_focus<W>(s: RestoreState<W>, reply: ReplyValue)
    requires
        s.stage !is Snapshotting,
        !(s.stage is Focusing && reply is Done),
    ensures
        run::followed(s, reply).state.pre_existing == s.pre_existing,
{
}

/// Whether `argv` is the command, word for word, and after it the arguments, one by
/// one in their order.
pub open spec fn is_command_then_args(
    argv: Seq<Seq<char>>,
    command: Seq<Seq<char>>,
    args: Seq<Seq<char>>,
) -> bool {
    &&& argv.len() == command.len() + args.len()
    &&& forall|i: int| 0 <= i < command.len() ==> #[trigger] argv[i] == command[i]
    &&& forall|j: int| 0 <= j < args.len() ==> argv[command.len() + j] == #[trigger] args[j]
}

/// An app is started by the command that was looked up for it, followed by the launch
/// arguments of its plan in their order, however often it is launched.
pub proof fn law_apps_are_started_with_their_arguments<W>(s: RestoreState<W>, reply: ReplyValue)
    ensures
        run::followed(s, reply).turn.query matches QueryValue::Spawn(v) ==> {
            ||| s.stage matches StageValue::Launching(_, l) && is_command_then_args(
                v,
                l.command,
                l.plan.launch_args,
            )
            ||| s.stage matches StageValue::Resolving(_, p, _)
                && reply matches ReplyValue::Command(Some(c)) && p.session_restore
                && is_command_then_args(v, c, p.launch_args)
        },
{
}

/// A class that is launched window by window keeps the command that was looked up for
/// it and its plan, and as many launches are set out as windows are missing.
pub proof fn law_every_missing_window_has_a_launch<W>(
    s: RestoreState<W>,
    command: Seq<Seq<char>>,
)
    requires
        s.stage matches StageValue::Resolving(_, p, _) && !p.session_restore && p.needed > 0,
    ensures
        ({
            let next = run::followed(s, ReplyValue::Command(Some(command)));
            &&& next.turn.query is Clients
            &&& next.state.stage matches StageValue::Launching(e, l) && l.command == command
                && l.plan == s.stage->Resolving_1 && l.rest + 1 == l.plan.needed && l.before
                == s.stage->Resolving_2 && e == s.stage->Resolving_0
        }),
{
}

/// While windows of a class are missing, each launch asks for the start of the app.
pub proof fn law_launches_are_made_while_windows_are_missing<W>(
    s: RestoreState<W>,
    clients: Seq<HyprClient>,
)
    requires
        s.stage is Launching,
        run::open_count(clients, launch_at(s.stage)->0.plan.class) < launch_at(s.stage)->0.before
            + launch_at(s.stage)->0.plan.needed,
    ensures
        ({
            let next = run::followed(s, ReplyValue::Clients(clients));
            &&& next.turn.query is Spawn
            &&& next.state.stage matches StageValue::Spawning(_, l, current) && Some(l)
                == launch_at(s.stage) && current == run::open_count(clients, l.plan.class)
        }),
{
}

/// The windows of a class that are open are those with that initial class.
pub proof fn law_open_windows_are_counted_by_class(
    clients: Seq<HyprClient>,
    c: HyprClient,
    class: Seq<char>,
)
    ensures
        run::open_count(Seq::empty(), class) == 0,
        c.initial_class@ == class ==> run::open_count(clients.push(c), class) == run::open_count(
            clients,
            class,
        ) + 1,
        c.initial_class@ != class ==> run::open_count(clients.push(c), class) == run::open_count(
            clients,
            class,
        ),
{
    let before = live::client_classes(clients);
    assert(live::client_classes(clients.push(c)) =~= before.push(c.initial_class@));
    assert(live::client_classes(Seq::<HyprClient>::empty()) =~= Seq::<Seq<char>>::empty());
    tally::law_each_window_counts_once(before, c.initial_class@, class);
}

/// What is looked up is the class and the program of the plan, once the windows of
/// that class have been counted.
pub proof fn law_commands_are_looked_up_by_class<W>(s: RestoreState<W>, clients: Seq<HyprClient>)
    requires
        s.stage is Counting,
    ensures
        ({
            let plan = s.stage->Counting_1;
            let next = run::followed(s, ReplyValue::Clients(clients));
            &&& next.turn.query == (QueryValue::<W>::Resolve { class: plan.class, exe: plan.exe })
            &&& next.state.stage == StageValue::Resolving(
                s.stage->Counting_0,
                plan,
                run::open_count(clients, plan.class),
            )
        }),
{
}

/// A started app is waited for: for one window of its class, or, where it restores
/// itself, for all that are missing.
pub proof fn law_started_apps_are_waited_for<W>(s: RestoreState<W>)
    ensures
        s.stage matches StageValue::Spawning(_, l, _) ==> run::followed(
            s,
            ReplyValue::Done,
        ).turn.query == (QueryValue::<W>::Wait { class: l.plan.class, count: 1 }),
        s.stage matches StageValue::SpawningAll(_, p, _, _) ==> run::followed(
            s,
            ReplyValue::Done,
        ).turn.query == (QueryValue::<W>::Wait { class: p.class, count: p.needed }),
{
}

/// An app whose window no event told of is looked for among the open windows, and is
/// told to have timed out exactly where there are no more of them than before.
pub proof fn law_timeouts_are_confirmed<W>(
    s: RestoreState<W>,
    clients: Seq<HyprClient>,
    got: nat,
)
    ensures
        s.stage is Waiting ==> (run::followed(s, ReplyValue::Count(got)).state.stage is Confirming
            <==> got == 0),
        s.stage is Waiting && got == 0 ==> run::followed(s, ReplyValue::Count(got)).turn.query
            is Clients,
        s.stage matches StageValue::Confirming(_, l, current) ==> {
            let commands = run::followed(s, ReplyValue::Clients(clients)).turn.commands;
            let told = CommandValue::<W>::Note(
                messages::timeout_text(l.plan.class, run::number(l), l.plan.needed),
            );
            &&& run::open_count(clients, l.plan.class) <= current ==> commands.len() > 0
                && commands[0] == told
            &&& run::open_count(clients, l.plan.class) > current && l.rest > 0 ==> commands.len()
                == 0
        },
{
    if let StageValue::Confirming(entry, l, current) = s.stage {
        let none = Seq::<CommandValue<W>>::empty();
        let told = CommandValue::<W>::Note(
            messages::timeout_text(l.plan.class, run::number(l), l.plan.needed),
        );
        if run::open_count(clients, l.plan.class) <= current {
            let commands = run::followed(s, ReplyValue::Clients(clients)).turn.commands;
            if l.rest == 0 {
                let given = seq![told].push(CommandValue::Sleep(run::CLASS_MS));
                let notes = protocol::debug_commands::<W>(run::covered_notes(s.plans));
                assert((given + notes)[0] == told);
            }
        }
    }
}

/// An app that restores itself is done once all its windows have been waited for, and
/// its windows are counted where fewer came.
pub proof fn law_short_waits_are_rechecked<W>(s: RestoreState<W>, got: nat)
    requires
        s.stage is WaitingAll,
    ensures
        run::followed(s, ReplyValue::Count(got)).state.stage is Rechecking <==> got
            < s.stage->WaitingAll_1.needed,
        got < s.stage->WaitingAll_1.needed ==> run::followed(s, ReplyValue::Count(got)).turn.query
            is Clients,
{
}

/// The plans are gone through in their order: those that need no launch are passed
/// over, and the first that needs one comes next.
pub proof fn law_plans_are_followed_in_order(plans: Seq<plan::PlanValue>) -> (n: int)
    ensures
        0 <= n <= plans.len(),
        run::uncovered(plans) == plans.skip(n),
        forall|i: int| 0 <= i < n ==> (#[trigger] plans[i]).needed == 0,
        n < plans.len() ==> plans[n].needed > 0,
    decreases plans.len(),
{
    if plans.len() > 0 && plans[0].needed == 0 {
        let rest = plans.skip(1);
        let m = law_plans_are_followed_in_order(rest);
        assert(plans.skip(m + 1) =~= rest.skip(m));
        assert forall|i: int| 0 <= i < m + 1 implies (#[trigger] plans[i]).needed == 0 by {
            if i > 0 {
                assert(rest[i - 1] == plans[i]);
            }
        }
        if m < rest.len() {
            assert(plans[m + 1] == rest[m]);
        }
        m + 1
    } else {
        assert(plans.skip(0) =~= plans);
        0
    }
}

/// The next class that needs a launch has its windows counted; where there is none the
/// columns of the workspace are put in order.
pub proof fn law_classes_come_before_the_order<W>(
    s: RestoreState<W>,
    entry: WorkspaceEntry<W>,
    commands: Seq<CommandValue<W>>,
)
    ensures
        ({
            let next = run::next_plan(s, entry, commands);
            let left = run::uncovered(s.plans);
            &&& left.len() > 0 ==> next.turn.query is Clients && next.state.stage
                == StageValue::Counting(entry, left[0]) && next.state.plans == left.skip(1)
            &&& left.len() == 0 ==> next.turn.query == QueryValue::<W>::Columns(entry.workspace)
                && next.state.stage is Reordering && next.state.stage->Reordering_0 == entry
            &&& starts_with_commands(next.turn.commands, commands)
        }),
{
    let notes = protocol::debug_commands::<W>(run::covered_notes(s.plans));
    let first = reorder::first_turn::<W>(entry.workspace).turn.commands;
    assert((commands + notes).take(commands.len() as int) =~= commands);
    assert((commands + notes + first).take(commands.len() as int) =~= commands);
}

/// Whether a sequence of commands begins with others.
pub open spec fn starts_with_commands<W>(all: Seq<CommandValue<W>>, first: Seq<CommandValue<W>>) -> bool {
    all.len() >= first.len() && all.take(first.len() as int) == first
}

/// Once the last window of a class has been seen to, 300 ms are waited.
pub proof fn law_classes_are_given_time<W>(
    s: RestoreState<W>,
    entry: WorkspaceEntry<W>,
    launch: LaunchValue,
    commands: Seq<CommandValue<W>>,
)
    ensures
        starts_with_commands(
            run::next_launch(s, entry, launch, 0, commands).turn.commands,
            commands.push(CommandValue::Sleep(300)),
        ),
{
    law_classes_come_before_the_order(s, entry, commands.push(CommandValue::Sleep(300)));
}

/// A workspace that is begun is told, focused, and given 200 ms; on the overlay it is
/// told where there is one.
pub proof fn law_workspaces_are_told_and_focused<W>(
    s: RestoreState<W>,
    commands: Seq<CommandValue<W>>,
)
    requires
        s.begun < s.workspaces.len(),
    ensures
        ({
            let entry = s.workspaces[s.begun as int];
            let all = run::begin(s, commands).turn.commands;
            let n = commands.len() as int;
            &&& starts_with_commands(all, commands)
            &&& all[n] == CommandValue::<W>::Progress(
                messages::workspace_text(entry.workspace, entry.windows@.len()),
            )
            &&& all.len() == n + (if s.settings.overlay {
                4int
            } else {
                3int
            })
            &&& s.settings.overlay ==> all[n + 1] == CommandValue::<W>::OverlayProgress(
                messages::overlay_text(s.begun + 1, s.workspaces.len()),
            )
            &&& all[all.len() - 2] == CommandValue::<W>::FocusWorkspace(entry.workspace)
            &&& all.last() == CommandValue::<W>::Sleep(200)
            &&& run::begin(s, commands).state.begun == s.begun + 1
            &&& run::begin(s, commands).turn.query is Nothing
        }),
{
    let all = run::begin(s, commands).turn.commands;
    assert(all.take(commands.len() as int) =~= commands);
}

/// After the last workspace the sweep waits for the configured time, and then looks at
/// the open windows.
pub proof fn law_sweep_waits_as_configured<W>(s: RestoreState<W>, commands: Seq<CommandValue<W>>)
    requires
        s.begun >= s.workspaces.len(),
    ensures
        ({
            let next = run::begin(s, commands);
            &&& next.turn.commands == commands.push(
                CommandValue::SleepSecs(s.settings.settle_delay_secs),
            )
            &&& next.turn.query is Clients
            &&& next.state.stage is Sweeping
        }),
{
    assert(run::begin(s, commands).turn.commands =~= commands.push(
        CommandValue::SleepSecs(s.settings.settle_delay_secs),
    ));
}

/// The overlay is shown at the start and taken away at the end exactly where it is
/// configured.
pub proof fn law_overlay_is_shown_as_configured<W>(
    session: Session<W>,
    name: Seq<char>,
    extra: Seq<Seq<char>>,
    settings: Settings,
    only: Option<i32>,
    s: RestoreState<W>,
    commands: Seq<CommandValue<W>>,
)
    ensures
        ({
            let first = run::first_turn(session, name, extra, settings, only).turn;
            let last = run::wind_up(s, commands).turn;
            &&& first.commands[0] == CommandValue::<W>::Progress(
                messages::restoring_text(name, only),
            )
            &&& first.query is AcquireLock
            &&& settings.overlay ==> first.commands.len() == 2 && first.commands[1] is SpawnOverlay
            &&& !settings.overlay ==> first.commands.len() == 1
            &&& starts_with_commands(last.commands, commands)
            &&& s.settings.overlay ==> last.commands.len() == commands.len() + 2
                && last.commands[commands.len() as int] is KillOverlay
            &&& !s.settings.overlay ==> last.commands.len() == commands.len() + 1
            &&& last.commands.last() == CommandValue::<W>::FocusWorkspace(s.target)
        }),
{
    assert(run::wind_up(s, commands).turn.commands.take(commands.len() as int) =~= commands);
}

/// Getting ready takes the lock, then takes down what is open, then listens to events,
/// and then begins with the first workspace.
pub proof fn law_preparation_is_in_order<W>(s: RestoreState<W>, clients: Seq<HyprClient>)
    ensures
        s.stage is Locking ==> run::followed(s, ReplyValue::Done).turn.query is Clients
            && run::followed(s, ReplyValue::Done).state.stage is Snapshotting,
        s.stage is Snapshotting ==> ({
            let next = run::followed(s, ReplyValue::Clients(clients));
            &&& next.turn.query is Subscribe
            &&& next.state.stage is Subscribing
            &&& next.state.pre_existing == live::class_counts(live::client_classes(clients))
            &&& next.state.addresses == live::client_addresses(clients).to_set()
        }),
        s.stage is Subscribing ==> run::followed(s, ReplyValue::Done) == run::begin(
            s,
            Seq::empty(),
        ),
{
}

/// A program that does not start is told with its class and its failure, and the next
/// launch, or the next class, follows.
pub proof fn law_failed_starts_are_told<W>(s: RestoreState<W>, e: Seq<char>)
    requires
        is_starting(s.stage),
    ensures
        ({
            let next = run::followed(s, ReplyValue::Failed(e));
            &&& next.turn.commands.len() > 0
            &&& s.stage matches StageValue::SpawningAll(_, p, program, _) ==> next.turn.commands[0]
                == CommandValue::<W>::Warn(messages::spawn_failed_text(p.class, program, e))
            &&& s.stage matches StageValue::Spawning(_, l, _) ==> next.turn.commands[0]
                == CommandValue::<W>::Warn(
                messages::launch_failed_text(
                    l.plan.class,
                    run::number(l),
                    l.plan.needed,
                    run::program(l.command),
                    e,
                ),
            )
            &&& s.stage matches StageValue::Spawning(_, l, _) ==> (l.rest > 0
                ==> next.state.stage is Launching)
            &&& next.turn.query !is Spawn && next.turn.query !is Finish
        }),
{
    if let StageValue::SpawningAll(entry, p, program, _) = s.stage {
        let told = seq![
            CommandValue::<W>::Warn(messages::spawn_failed_text(p.class, program, e)),
        ];
        law_classes_come_before_the_order(s, entry, told);
        assert(run::next_plan(s, entry, told).turn.commands.take(1)[0] == told[0]);
    }
    if let StageValue::Spawning(entry, l, _) = s.stage {
        let told = seq![
            CommandValue::<W>::Warn(
                messages::launch_failed_text(
                    l.plan.class,
                    run::number(l),
                    l.plan.needed,
                    run::program(l.command),
                    e,
                ),
            ),
        ];
        if l.rest == 0 {
            law_classes_are_given_time(s, entry, l, told);
            let all = run::next_launch(s, entry, l, 0, told).turn.commands;
            assert(all.take(2)[0] == told.push(CommandValue::Sleep(300))[0]);
        }
    }
}

/// A class for which no command is found is told and passed over.
pub proof fn law_classes_without_command_are_passed_over<W>(s: RestoreState<W>)
    requires
        s.stage is Resolving,
    ensures
        ({
            let p = s.stage->Resolving_1;
            let next = run::followed(s, ReplyValue::Command(None));
            &&& next.turn.commands.len() > 0
            &&& next.turn.commands[0] == CommandValue::<W>::Warn(
                messages::no_binary_text(p.class, p.exe),
            )
            &&& next.turn.query !is Spawn
        }),
{
    let p = s.stage->Resolving_1;
    let entry = s.stage->Resolving_0;
    let told = seq![CommandValue::<W>::Warn(messages::no_binary_text(p.class, p.exe))];
    law_classes_come_before_the_order(s, entry, told);
    assert(run::next_plan(s, entry, told).turn.commands.take(1)[0] == told[0]);
}

/// Launches are numbered from one to the number of missing windows.
pub proof fn law_launches_are_numbered(launch: LaunchValue)
    requires
        launch.rest < launch.plan.needed,
    ensures
        1 <= run::number(launch) <= launch.plan.needed,
        run::number(launch) + launch.rest == launch.plan.needed,
{
}

/// A restore keeps the settings and the launch arguments that it was begun with, and
/// what was open before it is taken down once.
pub proof fn law_restore_keeps_what_it_was_given<W>(
    session: Session<W>,
    name: Seq<char>,
    extra: Seq<Seq<char>>,
    settings: Settings,
    only: Option<i32>,
    s: RestoreState<W>,
    reply: ReplyValue,
)
    ensures
        ({
            let first = run::first_turn(session, name, extra, settings, only).state;
            &&& first.settings == settings
            &&& first.extra == extra
            &&& first.begun == 0
            &&& first.stage is Locking
        }),
        ({
            let next = run::followed(s, reply).state;
            &&& next.settings == s.settings
            &&& next.extra == s.extra
            &&& next.workspaces == s.workspaces
            &&& next.target == s.target
            &&& s.stage !is Snapshotting ==> next.addresses == s.addresses
            &&& s.stage !is Snapshotting && s.stage !is Focusing ==> next.pre_existing
                == s.pre_existing
        }),
{
}

/// Once a workspace is focused, its windows are planned for against what was open
/// before the restore and is not yet taken, and what they take is taken.
pub proof fn law_focused_workspaces_are_planned_for<W>(s: RestoreState<W>) -> (n: int)
    requires
        s.stage is Focusing,
    ensures
        ({
            let windows = s.stage->Focusing_0.windows@;
            let plans = plan::plans_for(
                windows,
                windows.len(),
                s.pre_existing,
                s.settings,
                s.extra,
            );
            let next = run::followed(s, ReplyValue::Done);
            &&& 0 <= n <= plans.len()
            &&& forall|i: int| 0 <= i < n ==> (#[trigger] plans[i]).needed == 0
            &&& n < plans.len() ==> plans[n].needed > 0 && next.state.stage == StageValue::Counting(
                s.stage->Focusing_0,
                plans[n],
            ) && next.state.plans == plans.skip(n + 1)
            &&& n == plans.len() ==> next.state.stage is Reordering
            &&& next.state.pre_existing == plan::left_over(
                windows,
                windows.len() as int,
                s.pre_existing,
            )
        }),
{
    let windows = s.stage->Focusing_0.windows@;
    let plans = plan::plans_for(windows, windows.len(), s.pre_existing, s.settings, s.extra);
    let n = law_plans_are_followed_in_order(plans);
    if n < plans.len() {
        assert(plans.skip(n).skip(1) =~= plans.skip(n + 1));
        assert(plans.skip(n)[0] == plans[n]);
    }
    n
}

/// Each class that is passed over because its windows are open is told with their
/// number, in the order of the plans.
pub proof fn law_covered_classes_are_told(plans: Seq<plan::PlanValue>, n: int)
    requires
        0 <= n <= plans.len(),
        forall|i: int| 0 <= i < n ==> (#[trigger] plans[i]).needed == 0,
        n < plans.len() ==> plans[n].needed > 0,
    ensures
        run::covered_notes(plans).len() == n,
        forall|i: int|
            0 <= i < n ==> #[trigger] run::covered_notes(plans)[i] == "  "@ + plans[i].class
                + ": skipped (pre-existing covers all "@ + crate::text::decimal(
                plans[i].saved_count,
            ) + ")"@,
    decreases n,
{
    if n > 0 {
        let rest = plans.skip(1);
        assert(plans[0].needed == 0);
        assert forall|i: int| 0 <= i < n - 1 implies (#[trigger] rest[i]).needed == 0 by {
            assert(rest[i] == plans[i + 1]);
        }
        law_covered_classes_are_told(rest, n - 1);
        assert forall|i: int| 0 <= i < n implies #[trigger] run::covered_notes(plans)[i] == "  "@
            + plans[i].class + ": skipped (pre-existing covers all "@ + crate::text::decimal(
            plans[i].saved_count,
        ) + ")"@ by {
            if i > 0 {
                assert(run::covered_notes(plans)[i] == run::covered_notes(rest)[i - 1]);
                assert(rest[i - 1] == plans[i]);
            }
        }
    }
}

/// Of an app that restores itself the windows that came are told, together with how
/// many of its windows there are in all and whether enough came, and 300 ms are waited.
pub proof fn law_restored_windows_are_told<W>(
    s: RestoreState<W>,
    got: nat,
    clients: Seq<HyprClient>,
)
    ensures
        s.stage matches StageValue::WaitingAll(_, p, before) ==> (got >= p.needed
            ==> starts_with_commands(
            run::followed(s, ReplyValue::Count(got)).turn.commands,
            seq![
                CommandValue::Debug(
                    messages::appeared_text(
                        p.class,
                        got,
                        p.needed,
                        crate::session::capped(before + got),
                        true,
                    ),
                ),
                CommandValue::Sleep(300),
            ],
        )),
        s.stage matches StageValue::WaitingAll(e, p, before) ==> (got < p.needed
            ==> run::followed(s, ReplyValue::Count(got)).state.stage == StageValue::Rechecking(
            e,
            p,
            before,
            got,
        )),
        s.stage matches StageValue::Rechecking(_, p, before, came) ==> starts_with_commands(
            run::followed(s, ReplyValue::Clients(clients)).turn.commands,
            seq![
                CommandValue::Debug(
                    messages::appeared_text(
                        p.class,
                        came,
                        p.needed,
                        crate::session::capped(before + came),
                        run::open_count(clients, p.class) >= before + p.needed,
                    ),
                ),
                CommandValue::Sleep(300),
            ],
        ),
{
    if let StageValue::WaitingAll(entry, p, before) = s.stage {
        law_classes_come_before_the_order(
            s,
            entry,
            seq![
                CommandValue::Debug(
                    messages::appeared_text(
                        p.class,
                        got,
                        p.needed,
                        crate::session::capped(before + got),
                        true,
                    ),
                ),
                CommandValue::Sleep(300),
            ],
        );
    }
    if let StageValue::Rechecking(entry, p, before, came) = s.stage {
        law_classes_come_before_the_order(
            s,
            entry,
            seq![
                CommandValue::Debug(
                    messages::appeared_text(
                        p.class,
                        came,
                        p.needed,
                        crate::session::capped(before + came),
                        run::open_count(clients, p.class) >= before + p.needed,
                    ),
                ),
                CommandValue::Sleep(300),
            ],
        );
    }
}

/// What an app that restores itself is started with is kept until its windows have
/// been waited for: its workspace, its plan, the windows before, and its program, the
/// first word of the command.
pub proof fn law_self_restoring_apps_keep_their_plan<W>(
    s: RestoreState<W>,
    command: Seq<Seq<char>>,
)
    requires
        command.len() > 0,
    ensures
        s.stage matches StageValue::Resolving(e, p, before) ==> (p.session_restore
            ==> run::followed(s, ReplyValue::Command(Some(command))).state.stage
            == StageValue::SpawningAll(e, p, command[0], before)),
        s.stage matches StageValue::SpawningAll(e, p, _, before) ==> run::followed(
            s,
            ReplyValue::Done,
        ).state.stage == StageValue::WaitingAll(e, p, before),
{
}

/// A window that came is enough for one launch: nothing is told of it, and the next
/// launch follows, or the next class after the last.
pub proof fn law_seen_windows_lead_on<W>(s: RestoreState<W>, got: nat)
    requires
        got > 0,
    ensures
        s.stage matches StageValue::Waiting(e, l, _) ==> (l.rest > 0 ==> {
            let next = run::followed(s, ReplyValue::Count(got));
            &&& next.turn.commands.len() == 0
            &&& next.turn.query is Clients
            &&& next.state.stage == StageValue::Launching(
                e,
                (LaunchValue { rest: (l.rest - 1) as nat, ..l }),
            )
        }),
        s.stage matches StageValue::Waiting(_, l, _) ==> (l.rest == 0 ==> starts_with_commands(
            run::followed(s, ReplyValue::Count(got)).turn.commands,
            seq![CommandValue::Sleep(300)],
        )),
        s.stage matches StageValue::Spawning(e, l, current) ==> run::followed(
            s,
            ReplyValue::Done,
        ).state.stage == StageValue::Waiting(e, l, current),
{
    if let StageValue::Waiting(entry, l, _) = s.stage {
        let none = Seq::<CommandValue<W>>::empty();
        law_classes_are_given_time(s, entry, l, none);
        assert(none.push(CommandValue::Sleep(300)) =~= seq![CommandValue::Sleep(300)]);
    }
}

/// A launch that is no longer needed is told with its number and with the windows that
/// are open.
pub proof fn law_needless_launches_are_told<W>(s: RestoreState<W>, clients: Seq<HyprClient>)
    requires
        s.stage is Launching,
        run::open_count(clients, launch_at(s.stage)->0.plan.class) >= launch_at(s.stage)->0.before
            + launch_at(s.stage)->0.plan.needed,
    ensures
        ({
            let l = launch_at(s.stage)->0;
            let next = run::followed(s, ReplyValue::Clients(clients));
            &&& next.turn.query !is Spawn
            &&& starts_with_commands(
                next.turn.commands,
                seq![
                    CommandValue::Debug(
                        messages::already_text(
                            l.plan.class,
                            run::number(l),
                            l.plan.needed,
                            run::open_count(clients, l.plan.class),
                        ),
                    ),
                ],
            )
        }),
{
    let l = launch_at(s.stage)->0;
    let told = seq![
        CommandValue::<W>::Debug(
            messages::already_text(
                l.plan.class,
                run::number(l),
                l.plan.needed,
                run::open_count(clients, l.plan.class),
            ),
        ),
    ];
    let entry = s.stage->Launching_0;
    law_classes_are_given_time(s, entry, l, told);
    let all = run::next_launch(s, entry, l, 0, told).turn.commands;
    if l.rest == 0 {
        assert(all.take(1) =~= all.take(2).take(1));
        assert(told.push(CommandValue::Sleep(300)).take(1) =~= told);
    } else {
        assert(told.take(1) =~= told);
    }
}

/// The windows of a class are told before its command is looked up.
pub proof fn law_counts_are_told<W>(s: RestoreState<W>, clients: Seq<HyprClient>)
    requires
        s.stage is Counting,
    ensures
        ({
            let p = s.stage->Counting_1;
            run::followed(s, ReplyValue::Clients(clients)).turn.commands == seq![
                CommandValue::<W>::Debug(
                    messages::counts_text(
                        p.class,
                        p.saved_count,
                        p.pre,
                        p.needed,
                        run::open_count(clients, p.class),
                    ),
                ),
            ]
        }),
{
}

/// The restore is told to be complete last, and where the last focus failed that is
/// told before.
pub proof fn law_end_is_told<W>(s: RestoreState<W>, e: Seq<char>)
    requires
        s.stage is Refocusing,
    ensures
        ({
            let fine = run::followed(s, ReplyValue::Done).turn;
            let failed = run::followed(s, ReplyValue::Failed(e)).turn;
            let complete = CommandValue::<W>::Progress("restore complete"@);
            &&& fine.commands.len() == 1
            &&& fine.commands[0] == complete
            &&& failed.commands.len() == 2
            &&& failed.commands[0] == CommandValue::<W>::Warn(
                "could not refocus workspace: "@ + e,
            )
            &&& failed.commands[1] == complete
            &&& fine.query == QueryValue::<W>::Finish(Ok(()))
            &&& failed.query == QueryValue::<W>::Finish(Ok(()))
        }),
{
}

/// While the columns of a workspace are put in order, that order's own commands and
/// queries are passed on, and the next workspace follows it.
pub proof fn law_orders_are_passed_on<W>(s: RestoreState<W>, reply: ReplyValue)
    requires
        s.stage is Reordering,
    ensures
        ({
            let entry = s.stage->Reordering_0;
            let sub = reorder::followed(
                s.stage->Reordering_1,
                entry.workspace,
                entry.windows@,
                reply,
            );
            let next = run::followed(s, reply);
            &&& starts_with_commands(next.turn.commands, sub.turn.commands)
            &&& sub.turn.query !is Finish ==> next.turn == sub.turn && next.state.stage
                == StageValue::Reordering(entry, sub.stage)
            &&& sub.turn.query is Finish ==> next.state.stage is Focusing || next.state.stage
                is Sweeping
        }),
{
    let entry = s.stage->Reordering_0;
    let sub = reorder::followed(s.stage->Reordering_1, entry.workspace, entry.windows@, reply);
    let next = run::followed(s, reply);
    let n = sub.turn.commands.len() as int;
    assert(next.turn.commands.take(n) =~= sub.turn.commands);
}

/// While stray windows are moved, the sweep's own commands and queries are passed on,
/// and the end of the restore follows it, though it failed.
pub proof fn law_sweeps_are_passed_on<W>(s: RestoreState<W>, reply: ReplyValue)
    requires
        s.stage is Sweeping,
    ensures
        ({
            let sub = sweep::followed(s.stage->Sweeping_0, s.workspaces, s.addresses, reply);
            let next = run::followed(s, reply);
            &&& starts_with_commands(next.turn.commands, sub.turn.commands)
            &&& sub.turn.query !is Finish ==> next.turn == sub.turn && next.state.stage
                == StageValue::Sweeping(sub.stage)
            &&& sub.turn.query is Finish ==> next.state.stage is Refocusing
            &&& sub.turn.query matches QueryValue::Finish(Err(e)) ==> next.turn.commands[
                sub.turn.commands.len() as int
            ] == CommandValue::<W>::Warn("stray-window sweep failed: "@ + e)
        }),
{
    let sub = sweep::followed(s.stage->Sweeping_0, s.workspaces, s.addresses, reply);
    let next = run::followed(s, reply);
    let n = sub.turn.commands.len() as int;
    assert(next.turn.commands.take(n) =~= sub.turn.commands);
}

} // verus!
