//! Moving stray windows to the workspaces that they belong on.

use vstd::prelude::*;

use crate::collections::TextSet;
use crate::hyprland::HyprClient;
use crate::restore::plan;
use crate::restore::protocol::{
    self, Command, CommandValue, Query, QueryValue, Reply, ReplyValue, Turn, TurnValue,
};
use crate::restore::reorder::{self, Reorder};
use crate::restore::stray::{self, Stray, StrayValue};
use crate::session::{WindowEntry, WorkspaceEntry};
use crate::text;

verus! {

/// How long, in milliseconds, the compositor is given after a window was moved.
pub const MOVE_MS: u64 = 100;

/// The windows that were saved for workspace `id`: those of the last entry for
/// it. None where there is no entry.
pub open spec fn windows_of<W>(workspaces: Seq<WorkspaceEntry<W>>, id: i32) -> Option<
    Seq<WindowEntry<W>>,
>
    decreases workspaces.len(),
{
    if workspaces.len() == 0 {
        None
    } else if workspaces.last().workspace == id {
        Some(workspaces.last().windows@)
    } else {
        windows_of(workspaces.drop_last(), id)
    }
}

/// The windows that were saved for workspace `id`, if any.
pub open spec fn saved_on<W>(workspaces: Seq<WorkspaceEntry<W>>, id: i32) -> Seq<WindowEntry<W>> {
    match windows_of(workspaces, id) {
        Some(w) => w,
        None => Seq::empty(),
    }
}

/// The workspaces that windows are moved to, each once, in the order of the
/// moves.
pub open spec fn affected<W>(
    workspaces: Seq<WorkspaceEntry<W>>,
    moves: Seq<StrayValue>,
) -> Seq<i32>
    decreases moves.len(),
{
    if moves.len() == 0 {
        Seq::empty()
    } else {
        let before = affected(workspaces, moves.drop_last());
        let id = moves.last().target;
        if before.contains(id) || windows_of(workspaces, id) is None {
            before
        } else {
            before.push(id)
        }
    }
}

/// Tells of a window that strayed.
pub open spec fn strayed_text(s: StrayValue) -> Seq<char> {
    "  fix: "@ + s.class + " strayed to ws"@ + text::signed_decimal(s.from as int)
        + " → moving to ws"@ + text::signed_decimal(s.target as int)
}

fn strayed(s: &Stray) -> (r: String)
    ensures
        r@ == strayed_text(s@),
{
    let from: String = text::i32_text(s.from);
    let target: String = text::i32_text(s.target);
    let head: String = text::join3("  fix: ", s.class.as_str(), " strayed to ws");
    text::join3(
        text::join2(head.as_str(), from.as_str()).as_str(),
        " → moving to ws",
        target.as_str(),
    )
}

/// What the moves ask for.
pub open spec fn move_commands<W>(moves: Seq<StrayValue>) -> Seq<CommandValue<W>>
    decreases moves.len(),
{
    if moves.len() == 0 {
        Seq::empty()
    } else {
        let s = moves.last();
        move_commands(moves.drop_last()).push(CommandValue::Debug(strayed_text(s))).push(
            CommandValue::MoveTo(s.address, s.target),
        ).push(CommandValue::Sleep(MOVE_MS))
    }
}

/// The line that tells how many windows were moved.
pub open spec fn moved_text(n: nat) -> Seq<char> {
    "moved "@ + text::decimal(n) + " stray window(s) to correct workspace(s)"@
}

/// The warning that a workspace could not be put in order again.
pub open spec fn resort_failed_text(id: i32, e: Seq<char>) -> Seq<char> {
    "reordering workspace "@ + text::signed_decimal(id as int)
        + " after the stray sweep failed: "@ + e
}

/// How far the sweep is.
pub enum Stage<W> {
    /// Windows that open late are being waited for.
    Settling,
    /// Stray windows are being moved.
    Moving(Vec<i32>),
    /// A workspace that a window was moved to is being put in order, and others
    /// are to follow.
    Sorting(i32, Vec<i32>, Reorder<W>),
    /// Nothing is left to do.
    Over,
}

/// How far the sweep is, as values.
pub enum StageValue<W> {
    Settling,
    Moving(Seq<i32>),
    Sorting(i32, Seq<i32>, reorder::StageValue<W>),
    Over,
}

impl<W> View for Stage<W> {
    type V = StageValue<W>;

    open spec fn view(&self) -> StageValue<W> {
        match *self {
            Stage::Settling => StageValue::Settling,
            Stage::Moving(ids) => StageValue::Moving(ids@),
            Stage::Sorting(id, rest, sub) => StageValue::Sorting(id, rest@, sub.stage@),
            Stage::Over => StageValue::Over,
        }
    }
}

/// A stage and a turn that lead on from another stage.
pub struct Advance<W> {
    pub stage: StageValue<W>,
    pub turn: TurnValue<W>,
}

/// The first turn: let late windows open, then list the windows.
pub open spec fn first_turn<W>(settle_secs: u64) -> Advance<W> {
    Advance {
        stage: StageValue::Settling,
        turn: TurnValue {
            commands: seq![CommandValue::SleepSecs(settle_secs)],
            query: QueryValue::Clients,
        },
    }
}

/// The turn that ends the sweep.
pub open spec fn over<W>(commands: Seq<CommandValue<W>>, result: Result<(), Seq<char>>) -> Advance<
    W,
> {
    Advance {
        stage: StageValue::Over,
        turn: TurnValue { commands, query: QueryValue::Finish(result) },
    }
}

/// The turn that starts on the first of the workspaces that windows were moved to,
/// or ends the sweep where there is none.
pub open spec fn resumed<W>(ids: Seq<i32>, commands: Seq<CommandValue<W>>) -> Advance<W> {
    if ids.len() > 0 {
        let first = reorder::first_turn::<W>(ids[0]);
        Advance {
            stage: StageValue::Sorting(ids[0], ids.skip(1), first.stage),
            turn: TurnValue {
                commands: commands + first.turn.commands,
                query: first.turn.query,
            },
        }
    } else {
        over(commands, Ok(()))
    }
}

/// The moves that are made on seeing `clients`.
pub open spec fn moves_for<W>(
    workspaces: Seq<WorkspaceEntry<W>>,
    pre_existing: Set<Seq<char>>,
    clients: Seq<HyprClient>,
) -> Seq<StrayValue> {
    stray::strays(clients, stray::homes_in(workspaces), pre_existing)
}

/// What follows a stage. A failure ends the sweep, but for one in putting a
/// workspace in order, which is told and passed over.
pub open spec fn followed<W>(
    stage: StageValue<W>,
    workspaces: Seq<WorkspaceEntry<W>>,
    pre_existing: Set<Seq<char>>,
    reply: ReplyValue,
) -> Advance<W> {
    match (stage, reply) {
        (StageValue::Settling, ReplyValue::Clients(clients)) => {
            let moves = moves_for(workspaces, pre_existing, clients);
            Advance {
                stage: StageValue::Moving(affected(workspaces, moves)),
                turn: TurnValue {
                    commands: if moves.len() > 0 {
                        move_commands(moves).push(
                            CommandValue::Progress(moved_text(moves.len())),
                        )
                    } else {
                        move_commands(moves)
                    },
                    query: QueryValue::Nothing,
                },
            }
        },
        (StageValue::Moving(ids), ReplyValue::Done) => resumed(ids, Seq::empty()),
        (StageValue::Sorting(id, rest, sub), reply) => {
            let next = reorder::followed(sub, id, saved_on(workspaces, id), reply);
            match next.turn.query {
                QueryValue::Finish(Ok(_)) => resumed(rest, next.turn.commands),
                QueryValue::Finish(Err(e)) => resumed(
                    rest,
                    next.turn.commands.push(CommandValue::Warn(resort_failed_text(id, e))),
                ),
                _ => Advance {
                    stage: StageValue::Sorting(id, rest, next.stage),
                    turn: next.turn,
                },
            }
        },
        _ => over(Seq::empty(), Err(protocol::failure(reply))),
    }
}

/// The sweep for stray windows.
pub struct Sweep<W> {
    pub stage: Stage<W>,
}

fn find_entry<W>(workspaces: &Vec<&WorkspaceEntry<W>>, id: i32) -> (r: Option<usize>)
    ensures
        match r {
            Some(i) => i < workspaces@.len() && windows_of(plan::entries(workspaces@), id) == Some(
                workspaces@[i as int].windows@,
            ),
            None => windows_of(plan::entries(workspaces@), id) is None,
        },
{
    let ghost all = plan::entries(workspaces@);
    let mut n: usize = workspaces.len();
    assert(all.take(n as int) =~= all);
    while n > 0
        invariant
            0 <= n <= workspaces@.len(),
            all == plan::entries(workspaces@),
            windows_of(all, id) == windows_of(all.take(n as int), id),
        decreases n,
    {
        assert(all.take(n as int).drop_last() =~= all.take(n as int - 1));
        assert(all.take(n as int).last() == *workspaces@[n as int - 1]);
        n -= 1;
        if workspaces[n].workspace == id {
            return Some(n);
        }
    }
    None
}

fn affected_by<W>(workspaces: &Vec<&WorkspaceEntry<W>>, moves: &Vec<Stray>) -> (r: Vec<
    i32,
>)
    ensures
        r@ == affected(plan::entries(workspaces@), stray::stray_values(moves@)),
{
    let ghost all = stray::stray_values(moves@);
    let ghost entries = plan::entries(workspaces@);
    let mut out: Vec<i32> = Vec::new();
    let mut i: usize = 0;
    assert(out@ =~= affected(entries, all.take(0)));
    while i < moves.len()
        invariant
            0 <= i <= moves@.len(),
            all == stray::stray_values(moves@),
            entries == plan::entries(workspaces@),
            out@ == affected(entries, all.take(i as int)),
        decreases moves@.len() - i,
    {
        assert(all.take(i as int + 1).drop_last() =~= all.take(i as int));
        assert(all.take(i as int + 1).last() == moves@[i as int]@);
        let id: i32 = moves[i].target;
        if !stray::has_id(&out, id) && find_entry(workspaces, id).is_some() {
            out.push(id);
        }
        i += 1;
    }
    assert(all.take(all.len() as int) =~= all);
    out
}

fn moving<W>(moves: &Vec<Stray>) -> (r: Vec<Command<W>>)
    ensures
        protocol::command_values(r@) == move_commands::<W>(stray::stray_values(moves@)),
{
    let ghost all = stray::stray_values(moves@);
    let mut commands: Vec<Command<W>> = Vec::new();
    let mut i: usize = 0;
    assert(protocol::command_values(commands@) =~= move_commands::<W>(all.take(0)));
    while i < moves.len()
        invariant
            0 <= i <= moves@.len(),
            all == stray::stray_values(moves@),
            protocol::command_values(commands@) == move_commands::<W>(all.take(i as int)),
        decreases moves@.len() - i,
    {
        assert(all.take(i as int + 1).drop_last() =~= all.take(i as int));
        assert(all.take(i as int + 1).last() == moves@[i as int]@);
        protocol::push(&mut commands, Command::Debug(strayed(&moves[i])));
        protocol::push(
            &mut commands,
            Command::MoveTo(moves[i].address.clone(), moves[i].target),
        );
        protocol::push(&mut commands, Command::Sleep(MOVE_MS));
        i += 1;
    }
    assert(all.take(all.len() as int) =~= all);
    commands
}

fn moved(n: usize) -> (r: String)
    ensures
        r@ == moved_text(n as nat),
{
    let count: String = text::usize_text(n);
    text::join3("moved ", count.as_str(), " stray window(s) to correct workspace(s)")
}

fn resort_failed(id: i32, e: &str) -> (r: String)
    ensures
        r@ == resort_failed_text(id, e@),
{
    let number: String = text::i32_text(id);
    let head: String = text::join3(
        "reordering workspace ",
        number.as_str(),
        " after the stray sweep failed: ",
    );
    text::join2(head.as_str(), e)
}

impl<W: Copy> Sweep<W> {
    /// Starts the sweep.
    pub fn start(settle_secs: u64) -> (r: (Self, Turn<W>))
        ensures
            r.0.stage@ == first_turn::<W>(settle_secs).stage,
            r.1@ == first_turn::<W>(settle_secs).turn,
    {
        let mut commands: Vec<Command<W>> = Vec::new();
        commands.push(Command::SleepSecs(settle_secs));
        assert(protocol::command_values(commands@) =~= first_turn::<W>(settle_secs).turn.commands);
        (Sweep { stage: Stage::Settling }, Turn { commands, query: Query::Clients })
    }

    fn resume(ids: Vec<i32>, commands: Vec<Command<W>>) -> (r: (Stage<W>, Turn<W>))
        ensures
            r.0@ == resumed(ids@, protocol::command_values(commands@)).stage,
            r.1@ == resumed(ids@, protocol::command_values(commands@)).turn,
    {
        let ghost all = ids@;
        let mut ids = ids;
        let mut commands = commands;
        if ids.len() > 0 {
            let id: i32 = ids.remove(0);
            assert(ids@ =~= all.skip(1));
            let ghost was = protocol::command_values(commands@);
            let (sub, turn) = Reorder::start(id);
            let mut more: Vec<Command<W>> = turn.commands;
            let ghost added = protocol::command_values(more@);
            commands.append(&mut more);
            assert(protocol::command_values(commands@) =~= was + added);
            (Stage::Sorting(id, ids, sub), Turn { commands, query: turn.query })
        } else {
            (Stage::Over, Turn { commands, query: Query::Finish(Ok(())) })
        }
    }

    /// Takes the answer to the last query and gives the next turn.
    pub fn fix_stray_windows(
        &mut self,
        workspaces: &Vec<&WorkspaceEntry<W>>,
        pre_existing: &TextSet,
        reply: Reply,
    ) -> (r: Turn<W>)
        ensures
            final(self).stage@ == followed(
                old(self).stage@,
                plan::entries(workspaces@),
                pre_existing@,
                reply@,
            ).stage,
            r@ == followed(
                old(self).stage@,
                plan::entries(workspaces@),
                pre_existing@,
                reply@,
            ).turn,
    {
        let ghost entries = plan::entries(workspaces@);
        let mut stage: Stage<W> = Stage::Over;
        std::mem::swap(&mut stage, &mut self.stage);
        let none: Vec<Command<W>> = Vec::new();
        assert(protocol::command_values(none@) =~= Seq::<CommandValue<W>>::empty());
        match (stage, reply) {
            (Stage::Settling, Reply::Clients(clients)) => {
                let map = stray::expected_workspaces(workspaces);
                let moves: Vec<Stray> = stray::find_strays(&clients, &map, pre_existing);
                let mut commands: Vec<Command<W>> = moving(&moves);
                assert(stray::stray_values(moves@).len() == moves@.len());
                if moves.len() > 0 {
                    protocol::push(&mut commands, Command::Progress(moved(moves.len())));
                }
                self.stage = Stage::Moving(affected_by(workspaces, &moves));
                Turn { commands, query: Query::Nothing }
            },
            (Stage::Moving(ids), Reply::Done) => {
                let (next, turn) = Self::resume(ids, none);
                self.stage = next;
                turn
            },
            (Stage::Sorting(id, rest, sub), reply) => {
                let mut sub = sub;
                let turn: Turn<W> = match find_entry(workspaces, id) {
                    Some(i) => sub.reorder_columns(id, &workspaces[i].windows, reply),
                    None => {
                        let empty: Vec<WindowEntry<W>> = Vec::new();
                        assert(empty@ =~= Seq::<WindowEntry<W>>::empty());
                        sub.reorder_columns(id, &empty, reply)
                    },
                };
                let mut commands: Vec<Command<W>> = turn.commands;
                match turn.query {
                    Query::Finish(Ok(_)) => {
                        let (next, turn) = Self::resume(rest, commands);
                        self.stage = next;
                        turn
                    },
                    Query::Finish(Err(e)) => {
                        protocol::push(
                            &mut commands,
                            Command::Warn(resort_failed(id, e.as_str())),
                        );
                        let (next, turn) = Self::resume(rest, commands);
                        self.stage = next;
                        turn
                    },
                    query => {
                        self.stage = Stage::Sorting(id, rest, sub);
                        Turn { commands, query }
                    },
                }
            },
            (_, reply) => Turn {
                commands: none,
                query: Query::Finish(Err(protocol::failure_text(reply))),
            },
        }
    }
}

proof fn lemma_move_commands<W>(moves: Seq<StrayValue>)
    ensures
        move_commands::<W>(moves).len() == 3 * moves.len(),
        forall|i: int|
            0 <= i < moves.len() ==> {
                &&& #[trigger] move_commands::<W>(moves)[3 * i] is Debug
                &&& move_commands::<W>(moves)[3 * i + 1] == CommandValue::<W>::MoveTo(
                    moves[i].address,
                    moves[i].target,
                )
                &&& move_commands::<W>(moves)[3 * i + 2] == CommandValue::<W>::Sleep(100)
            },
    decreases moves.len(),
{
    if moves.len() > 0 {
        let front = moves.drop_last();
        lemma_move_commands::<W>(front);
        let before = move_commands::<W>(front);
        let now = move_commands::<W>(moves);
        assert forall|i: int| 0 <= i < moves.len() implies {
            &&& #[trigger] now[3 * i] is Debug
            &&& now[3 * i + 1] == CommandValue::<W>::MoveTo(moves[i].address, moves[i].target)
            &&& now[3 * i + 2] == CommandValue::<W>::Sleep(100)
        } by {
            if i < front.len() {
                assert(front[i] == moves[i]);
                assert(before[3 * i] is Debug);
                assert(now[3 * i] == before[3 * i]);
                assert(now[3 * i + 1] == before[3 * i + 1]);
                assert(now[3 * i + 2] == before[3 * i + 2]);
            }
        }
    }
}

proof fn lemma_stray_of<W>(
    clients: Seq<HyprClient>,
    workspaces: Seq<WorkspaceEntry<W>>,
    pre_existing: Set<Seq<char>>,
    i: int,
) -> (c: int)
    requires
        0 <= i < moves_for(workspaces, pre_existing, clients).len(),
    ensures
        0 <= c < clients.len(),
        stray::stray_home(clients[c], stray::homes_in(workspaces), pre_existing) == Some(
            moves_for(workspaces, pre_existing, clients)[i].target,
        ),
        moves_for(workspaces, pre_existing, clients)[i].address == clients[c].address@,
        moves_for(workspaces, pre_existing, clients)[i].class == clients[c].initial_class@,
    decreases clients.len(),
{
    let front = clients.drop_last();
    let before = moves_for(workspaces, pre_existing, front);
    if i < before.len() {
        lemma_stray_of(front, workspaces, pre_existing, i)
    } else {
        clients.len() - 1
    }
}

/// The sweep sends every stray to its own workspace, and moves nothing else: each has
/// one move, to a workspace that had a window of its class, and is followed by a rest.
pub proof fn law_each_stray_goes_to_its_own_workspace<W>(
    workspaces: Seq<WorkspaceEntry<W>>,
    pre_existing: Set<Seq<char>>,
    clients: Seq<HyprClient>,
)
    ensures
        ({
            let moves = moves_for(workspaces, pre_existing, clients);
            let next = followed(
                StageValue::Settling,
                workspaces,
                pre_existing,
                ReplyValue::Clients(clients),
            );
            let commands = next.turn.commands;
            &&& next.turn.query is Nothing
            &&& forall|i: int|
                0 <= i < moves.len() ==> #[trigger] commands.contains(
                    CommandValue::<W>::MoveTo(moves[i].address, moves[i].target),
                )
            &&& forall|i: int|
                0 <= i < moves.len() ==> commands[3 * i + 1] == CommandValue::<W>::MoveTo(
                    (#[trigger] moves[i]).address,
                    moves[i].target,
                ) && commands[3 * i + 2] == CommandValue::<W>::Sleep(100)
            &&& commands.len() == (if moves.len() == 0 {
                0
            } else {
                3 * moves.len() + 1
            })
            &&& forall|k: int|
                0 <= k < commands.len() ==> (#[trigger] commands[k] matches CommandValue::MoveTo(
                    a,
                    w,
                ) ==> exists|c: int|
                    0 <= c < clients.len() && (#[trigger] clients[c]).address@ == a
                        && !pre_existing.contains(a) && clients[c].workspace_id != w
                        && had_class(workspaces, w, clients[c].initial_class@))
        }),
{
    let moves = moves_for(workspaces, pre_existing, clients);
    let commands = followed(
        StageValue::Settling,
        workspaces,
        pre_existing,
        ReplyValue::Clients(clients),
    ).turn.commands;
    let base = move_commands::<W>(moves);
    lemma_move_commands::<W>(moves);
    assert forall|i: int| 0 <= i < moves.len() implies commands[3 * i + 1] == CommandValue::<
        W,
    >::MoveTo((#[trigger] moves[i]).address, moves[i].target) && commands[3 * i + 2]
        == CommandValue::<W>::Sleep(100) by {
        assert(base[3 * i] is Debug);
        assert(commands[3 * i + 1] == base[3 * i + 1]);
        assert(commands[3 * i + 2] == base[3 * i + 2]);
    }
    assert forall|i: int| 0 <= i < moves.len() implies #[trigger] commands.contains(
        CommandValue::<W>::MoveTo(moves[i].address, moves[i].target),
    ) by {
        assert(commands[3 * i + 1] == CommandValue::<W>::MoveTo(moves[i].address, moves[i].target));
    }
    assert forall|k: int| 0 <= k < commands.len() implies (
    #[trigger] commands[k] matches CommandValue::MoveTo(a, w) ==> exists|c: int|
        0 <= c < clients.len() && (#[trigger] clients[c]).address@ == a && !pre_existing.contains(a)
            && clients[c].workspace_id != w && had_class(
            workspaces,
            w,
            clients[c].initial_class@,
        )) by {
        if let CommandValue::MoveTo(a, w) = commands[k] {
            assert(k < base.len());
            let i = k / 3;
            assert(base[3 * i] is Debug);
            assert(k == 3 * i + 1) by {
                if k == 3 * i {
                } else if k == 3 * i + 2 {
                    assert(base[k] == CommandValue::<W>::Sleep(100));
                }
            }
            assert(commands[k] == base[k]);
            let c = lemma_stray_of(clients, workspaces, pre_existing, i);
            stray::law_strays_go_where_their_class_was(clients[c], workspaces, pre_existing);
            let n = choose|n: int|
                0 <= n < workspaces.len() && (#[trigger] workspaces[n]).workspace == w
                    && plan::saved_classes(workspaces[n].windows@).contains(
                    clients[c].initial_class@,
                );
            assert(workspaces[n].workspace == w);
            let ids = stray::homes(workspaces, clients[c].initial_class@);
            assert(ids.contains(ids[0]));
            assert(clients[c].address@ == a);
        }
    }
}

/// Whether a workspace had a window of the class.
pub open spec fn had_class<W>(workspaces: Seq<WorkspaceEntry<W>>, id: i32, class: Seq<char>) -> bool {
    exists|n: int|
        0 <= n < workspaces.len() && (#[trigger] workspaces[n]).workspace == id
            && plan::saved_classes(workspaces[n].windows@).contains(class)
}

/// Whether a window is moved to the workspace.
pub open spec fn is_target(moves: Seq<StrayValue>, id: i32) -> bool {
    exists|i: int| 0 <= i < moves.len() && (#[trigger] moves[i]).target == id
}

/// Every workspace that a window is moved to is put in order again, each once, and no
/// other is.
pub proof fn law_every_receiving_workspace_is_sorted<W>(
    workspaces: Seq<WorkspaceEntry<W>>,
    moves: Seq<StrayValue>,
)
    ensures
        ({
            let ids = affected(workspaces, moves);
            &&& forall|i: int|
                0 <= i < moves.len() && windows_of(workspaces, (#[trigger] moves[i]).target) is Some
                    ==> ids.contains(moves[i].target)
            &&& forall|k: int|
                0 <= k < ids.len() ==> is_target(moves, #[trigger] ids[k])
            &&& ids.no_duplicates()
        }),
    decreases moves.len(),
{
    if moves.len() > 0 {
        let front = moves.drop_last();
        law_every_receiving_workspace_is_sorted(workspaces, front);
        let before = affected(workspaces, front);
        let ids = affected(workspaces, moves);
        let last = moves.last().target;
        assert forall|i: int|
            0 <= i < moves.len() && windows_of(workspaces, (#[trigger] moves[i]).target)
                is Some implies ids.contains(moves[i].target) by {
            if i < front.len() {
                assert(front[i] == moves[i]);
                let k = choose|k: int| 0 <= k < before.len() && before[k] == moves[i].target;
                assert(ids[k] == before[k]);
            } else if !before.contains(last) {
                assert(ids[ids.len() - 1] == last);
            } else {
                assert(ids == before);
            }
        }
        assert forall|k: int| 0 <= k < ids.len() implies is_target(moves, #[trigger] ids[k]) by {
            if k < before.len() {
                assert(ids[k] == before[k]);
                assert(is_target(front, before[k]));
                let i = choose|i: int|
                    0 <= i < front.len() && (#[trigger] front[i]).target == before[k];
                assert(moves[i].target == ids[k]);
            } else {
                assert(moves[moves.len() - 1].target == ids[k]);
            }
        }
        assert(ids.no_duplicates()) by {
            if ids.len() > before.len() {
                assert forall|a: int, b: int| 0 <= a < b < ids.len() implies ids[a] != ids[b] by {
                    assert(ids[a] == before[a]);
                    if b < before.len() {
                        assert(ids[b] == before[b]);
                    } else {
                        assert(before.contains(before[a]));
                    }
                }
            }
        }
    }
}

/// The windows that were saved for a workspace are those of its last entry.
pub proof fn law_last_entry_counts<W>(
    workspaces: Seq<WorkspaceEntry<W>>,
    w: WorkspaceEntry<W>,
    id: i32,
)
    ensures
        windows_of(Seq::<WorkspaceEntry<W>>::empty(), id) is None,
        w.workspace == id ==> windows_of(workspaces.push(w), id) == Some(w.windows@),
        w.workspace != id ==> windows_of(workspaces.push(w), id) == windows_of(workspaces, id),
{
    assert(workspaces.push(w).drop_last() =~= workspaces);
}

/// The sweep waits first, and then goes through the workspaces that it has to put in
/// order, one after another, whether that succeeds or not.
pub proof fn law_sweep_goes_through_all<W>(
    settle_secs: u64,
    workspaces: Seq<WorkspaceEntry<W>>,
    pre_existing: Set<Seq<char>>,
    id: i32,
    ids: Seq<i32>,
    sub: reorder::StageValue<W>,
    reply: ReplyValue,
)
    ensures
        first_turn::<W>(settle_secs).turn.commands.len() == 1,
        first_turn::<W>(settle_secs).turn.commands[0] == CommandValue::<W>::SleepSecs(settle_secs),
        first_turn::<W>(settle_secs).turn.query is Clients,
        ({
            let next = followed(
                StageValue::<W>::Moving(ids),
                workspaces,
                pre_existing,
                ReplyValue::Done,
            );
            &&& ids.len() == 0 ==> next.turn.query == QueryValue::<W>::Finish(Ok(()))
            &&& ids.len() > 0 ==> next.turn.query == QueryValue::<W>::Columns(ids[0])
                && next.stage == StageValue::Sorting(
                ids[0],
                ids.skip(1),
                reorder::first_turn::<W>(ids[0]).stage,
            )
        }),
        ({
            let inner = reorder::followed(sub, id, saved_on(workspaces, id), reply);
            let next = followed(
                StageValue::Sorting(id, ids, sub),
                workspaces,
                pre_existing,
                reply,
            );
            &&& inner.turn.query is Finish && ids.len() > 0 ==> next.turn.query
                == QueryValue::<W>::Columns(ids[0]) && next.stage == StageValue::Sorting(
                ids[0],
                ids.skip(1),
                reorder::first_turn::<W>(ids[0]).stage,
            )
            &&& inner.turn.query is Finish && ids.len() == 0 ==> next.turn.query == QueryValue::<
                W,
            >::Finish(Ok(()))
            &&& inner.turn.query !is Finish ==> next.turn == inner.turn && next.stage
                == StageValue::Sorting(id, ids, inner.stage)
        }),
{
}

/// What is told of a sweep gives the number of windows, the class, and both
/// workspaces.
pub proof fn law_sweeps_are_told(s: StrayValue, n: nat, id: i32, e: Seq<char>)
    ensures
        moved_text(n) == "moved "@ + text::decimal(n)
            + " stray window(s) to correct workspace(s)"@,
        text::begins(
            strayed_text(s),
            "  fix: "@ + s.class + " strayed to ws"@ + text::signed_decimal(s.from as int),
        ),
        text::ends(
            strayed_text(s),
            " → moving to ws"@ + text::signed_decimal(s.target as int),
        ),
        text::begins(
            resort_failed_text(id, e),
            "reordering workspace "@ + text::signed_decimal(id as int),
        ),
        text::ends(resort_failed_text(id, e), ": "@ + e),
{
    reveal_strlit(": ");
    reveal_strlit(" after the stray sweep failed: ");
    let head = "  fix: "@ + s.class + " strayed to ws"@ + text::signed_decimal(s.from as int);
    let tail = " → moving to ws"@ + text::signed_decimal(s.target as int);
    assert(strayed_text(s) =~= head + tail);
    let failed = resort_failed_text(id, e);
    let first = "reordering workspace "@ + text::signed_decimal(id as int);
    assert(failed =~= first + failed.skip(first.len() as int));
    assert(failed =~= failed.take(failed.len() - 2 - e.len()) + (": "@ + e));
}

/// A workspace that could not be put in order again is told with what went wrong, after
/// all that its order asked for; where it could be, nothing is told.
pub proof fn law_failed_orders_are_told<W>(
    workspaces: Seq<WorkspaceEntry<W>>,
    pre_existing: Set<Seq<char>>,
    id: i32,
    sub: reorder::StageValue<W>,
    reply: ReplyValue,
)
    ensures
        ({
            let inner = reorder::followed(sub, id, saved_on(workspaces, id), reply).turn;
            let next = followed(
                StageValue::Sorting(id, Seq::empty(), sub),
                workspaces,
                pre_existing,
                reply,
            ).turn;
            &&& inner.query is Finish ==> next.commands.take(inner.commands.len() as int)
                == inner.commands
            &&& inner.query == QueryValue::<W>::Finish(Ok(())) ==> next.commands.len()
                == inner.commands.len()
            &&& inner.query matches QueryValue::Finish(Err(e)) ==> next.commands.len()
                == inner.commands.len() + 1 && next.commands.last() == CommandValue::<W>::Warn(
                "reordering workspace "@ + text::signed_decimal(id as int)
                    + " after the stray sweep failed: "@ + e,
            )
        }),
{
    let inner = reorder::followed(sub, id, saved_on(workspaces, id), reply).turn;
    let next = followed(
        StageValue::Sorting(id, Seq::empty(), sub),
        workspaces,
        pre_existing,
        reply,
    ).turn;
    if inner.query is Finish {
        assert(next.commands.take(inner.commands.len() as int) =~= inner.commands);
    }
}

} // verus!
