//! Bringing the columns of one workspace into the saved order and widths.

use vstd::prelude::*;

use crate::config;
use crate::hyprland::HyprClient;
use crate::restore::columns::{self, LiveValue, LiveWindow};
use crate::restore::live::{self, RatioValue, WidthRatio};
use crate::restore::plan;
use crate::restore::protocol::{
    self, CheckValue, Command, CommandValue, Query, QueryValue, Reply, ReplyValue, Turn, TurnValue,
    WidthCheck,
};
use crate::session::WindowEntry;
use crate::text;

verus! {

/// How many times the columns of a workspace are put in order before the restore
/// gives up and warns.
pub const REORDER_ATTEMPTS: usize = 3;

/// How long, in milliseconds, the compositor is given to settle.
pub const SETTLE_MS: u64 = 200;

/// How long, in milliseconds, a swap of columns takes.
pub const SWAP_MS: u64 = 150;

/// What a move left by `steps` columns asks for: the swaps, with a rest after
/// each.
pub open spec fn swap_steps<W>(steps: nat) -> Seq<CommandValue<W>>
    decreases steps,
{
    if steps == 0 {
        Seq::empty()
    } else {
        swap_steps((steps - 1) as nat) + seq![
            CommandValue::SwapLeft,
            CommandValue::Sleep(SWAP_MS),
        ]
    }
}

/// What the moves ask for: each window is focused and then swapped to the left.
pub open spec fn swap_commands<W>(ops: Seq<(Seq<char>, nat)>) -> Seq<CommandValue<W>>
    decreases ops.len(),
{
    if ops.len() == 0 {
        Seq::empty()
    } else {
        swap_commands(ops.drop_last()).push(CommandValue::FocusWindow(ops.last().0)) + swap_steps(
            ops.last().1,
        )
    }
}

/// What a new column width asks for.
pub open spec fn resize_commands<W>(address: Seq<char>, width: W) -> Seq<CommandValue<W>> {
    seq![
        CommandValue::FocusWindow(address),
        CommandValue::Sleep(SETTLE_MS),
        CommandValue::Resize(width),
        CommandValue::Sleep(SETTLE_MS),
    ]
}

/// What new widths of several columns ask for.
pub open spec fn all_resizes<W>(ops: Seq<(Seq<char>, W)>) -> Seq<CommandValue<W>>
    decreases ops.len(),
{
    if ops.len() == 0 {
        Seq::empty()
    } else {
        all_resizes(ops.drop_last()) + resize_commands(ops.last().0, ops.last().1)
    }
}

/// The measured width of a window.
pub open spec fn ratio_for(ratios: Seq<RatioValue>, address: Seq<char>) -> Option<RatioValue>
    decreases ratios.len(),
{
    if ratios.len() == 0 {
        None
    } else if ratios.last().address == address {
        Some(ratios.last())
    } else {
        ratio_for(ratios.drop_last(), address)
    }
}

/// The widths that were asked for beside those that were measured. A window that
/// is gone is passed over.
pub open spec fn checks_for<W>(ops: Seq<(Seq<char>, W)>, ratios: Seq<RatioValue>) -> Seq<
    CheckValue<W>,
>
    decreases ops.len(),
{
    if ops.len() == 0 {
        Seq::empty()
    } else {
        let before = checks_for(ops.drop_last(), ratios);
        match ratio_for(ratios, ops.last().0) {
            Some(r) => before.push(
                CheckValue {
                    address: ops.last().0,
                    wanted: ops.last().1,
                    width: r.width,
                    monitor_width: r.monitor_width,
                },
            ),
            None => before,
        }
    }
}

/// The widths that have to be applied once more: those that did not settle.
pub open spec fn unsettled<W>(checks: Seq<CheckValue<W>>, settled: Seq<bool>, n: nat) -> Seq<
    CheckValue<W>,
>
    decreases n,
{
    if n == 0 {
        Seq::empty()
    } else {
        let before = unsettled(checks, settled, (n - 1) as nat);
        if n - 1 < settled.len() && !settled[n - 1] {
            before.push(checks[n - 1])
        } else {
            before
        }
    }
}

/// What widths that did not settle ask for: each is told and applied once more.
pub open spec fn all_reapplied<W>(checks: Seq<CheckValue<W>>) -> Seq<CommandValue<W>>
    decreases checks.len(),
{
    if checks.len() == 0 {
        Seq::empty()
    } else {
        all_reapplied(checks.drop_last()).push(CommandValue::WidthOff(checks.last()))
            + resize_commands(checks.last().address, checks.last().wanted)
    }
}

/// How far the work on a workspace is.
pub enum Stage<W> {
    /// The columns are being put in order, for the given time.
    Sorting(usize),
    /// The order after the last attempt is being looked at.
    Verifying,
    /// The columns are listed for their widths.
    Assigning,
    /// The widths that were applied are being measured.
    Measuring(Vec<(String, W)>),
    /// The measured widths are being compared.
    Comparing(Vec<WidthCheck<W>>),
    /// Widths that did not settle are being applied once more.
    Resizing,
    /// Nothing is left to do.
    Over,
}

/// How far the work on a workspace is, as values.
pub enum StageValue<W> {
    Sorting(nat),
    Verifying,
    Assigning,
    Measuring(Seq<(Seq<char>, W)>),
    Comparing(Seq<CheckValue<W>>),
    Resizing,
    Over,
}

impl<W> View for Stage<W> {
    type V = StageValue<W>;

    open spec fn view(&self) -> StageValue<W> {
        match *self {
            Stage::Sorting(n) => StageValue::Sorting(n as nat),
            Stage::Verifying => StageValue::Verifying,
            Stage::Assigning => StageValue::Assigning,
            Stage::Measuring(ops) => StageValue::Measuring(columns::width_values(ops@)),
            Stage::Comparing(checks) => StageValue::Comparing(protocol::check_values(checks@)),
            Stage::Resizing => StageValue::Resizing,
            Stage::Over => StageValue::Over,
        }
    }
}

/// The warning that the columns could not be put in order.
pub open spec fn gave_up_text(ws_id: i32) -> Seq<char> {
    "could not reorder workspace "@ + text::signed_decimal(ws_id as int)
        + " into the saved column order after "@ + text::decimal(REORDER_ATTEMPTS as nat)
        + " attempts"@
}

/// The saved classes with their widths.
pub open spec fn saved_pairs<W>(windows: Seq<WindowEntry<W>>) -> Seq<(Seq<char>, W)> {
    windows.map_values(|w: WindowEntry<W>| (w.class@, w.col_width))
}

/// A stage and a turn that lead on from another stage.
pub struct Advance<W> {
    pub stage: StageValue<W>,
    pub turn: TurnValue<W>,
}

/// The first turn: let the windows settle, then list the columns.
pub open spec fn first_turn<W>(ws_id: i32) -> Advance<W> {
    Advance {
        stage: StageValue::Sorting(1),
        turn: TurnValue {
            commands: seq![CommandValue::Sleep(SETTLE_MS)],
            query: QueryValue::Columns(ws_id),
        },
    }
}

/// The turn that ends the work.
pub open spec fn over<W>(result: Result<(), Seq<char>>) -> Advance<W> {
    Advance {
        stage: StageValue::Over,
        turn: TurnValue { commands: Seq::empty(), query: QueryValue::Finish(result) },
    }
}

/// The turn that lists the columns for their widths.
pub open spec fn to_widths<W>(ws_id: i32, commands: Seq<CommandValue<W>>) -> Advance<W> {
    Advance {
        stage: StageValue::Assigning,
        turn: TurnValue { commands, query: QueryValue::Columns(ws_id) },
    }
}

/// How the columns are put in order, for the given time: where they are in order,
/// or nothing can be moved, the widths come next. Else the moves are made and the
/// columns are listed again. What is moved and what is missing is told.
pub open spec fn ordered<W>(
    attempt: nat,
    ws_id: i32,
    windows: Seq<WindowEntry<W>>,
    live: Seq<LiveValue>,
) -> Advance<W> {
    let saved = plan::saved_classes(windows);
    let a = columns::arranged(saved, live, columns::positions(saved.len(), live.len()));
    let told = protocol::debug_commands::<W>(a.notes);
    if columns::in_order(saved, live) {
        to_widths(ws_id, Seq::empty())
    } else if a.ops.len() == 0 {
        to_widths(ws_id, told)
    } else {
        Advance {
            stage: if attempt < REORDER_ATTEMPTS {
                StageValue::Sorting(attempt + 1)
            } else {
                StageValue::Verifying
            },
            turn: TurnValue {
                commands: (told + swap_commands(a.ops)).push(CommandValue::Sleep(SETTLE_MS)),
                query: QueryValue::Columns(ws_id),
            },
        }
    }
}

/// What follows a stage. Any failure ends the work.
pub open spec fn followed<W>(
    stage: StageValue<W>,
    ws_id: i32,
    windows: Seq<WindowEntry<W>>,
    reply: ReplyValue,
) -> Advance<W> {
    match (stage, reply) {
        (StageValue::Sorting(n), ReplyValue::Clients(clients)) => ordered(
            n,
            ws_id,
            windows,
            live::columns_of(clients, ws_id),
        ),
        (StageValue::Verifying, ReplyValue::Clients(clients)) => to_widths(
            ws_id,
            if columns::in_order(
                plan::saved_classes(windows),
                live::columns_of(clients, ws_id),
            ) {
                Seq::empty()
            } else {
                seq![CommandValue::Warn(gave_up_text(ws_id))]
            },
        ),
        (StageValue::Assigning, ReplyValue::Clients(clients)) => {
            let ops = columns::assigned(
                saved_pairs(windows),
                live::columns_of(clients, ws_id),
                windows.len(),
            );
            Advance {
                stage: StageValue::Measuring(ops),
                turn: TurnValue { commands: all_resizes(ops), query: QueryValue::Widths(ws_id) },
            }
        },
        (StageValue::Measuring(ops), ReplyValue::Widths(clients, monitors)) => {
            let checks = checks_for(ops, live::ratios_of(clients, monitors, ws_id));
            Advance {
                stage: StageValue::Comparing(checks),
                turn: TurnValue {
                    commands: Seq::empty(),
                    query: QueryValue::Compare(checks),
                },
            }
        },
        (StageValue::Comparing(checks), ReplyValue::Settled(settled)) => Advance {
            stage: StageValue::Resizing,
            turn: TurnValue {
                commands: all_reapplied(unsettled(checks, settled, checks.len())),
                query: QueryValue::Nothing,
            },
        },
        (StageValue::Resizing, ReplyValue::Done) => over(Ok(())),
        _ => over(Err(protocol::failure(reply))),
    }
}

/// The work on the columns of one workspace.
pub struct Reorder<W> {
    pub stage: Stage<W>,
}

fn push_swaps<W>(commands: &mut Vec<Command<W>>, steps: usize)
    ensures
        protocol::command_values(final(commands)@) == protocol::command_values(old(commands)@)
            + swap_steps(steps as nat),
{
    let ghost was = protocol::command_values(commands@);
    let mut i: usize = 0;
    assert(was =~= was + swap_steps(0));
    while i < steps
        invariant
            0 <= i <= steps,
            protocol::command_values(commands@) == was + swap_steps(i as nat),
        decreases steps - i,
    {
        protocol::push(commands, Command::SwapLeft);
        protocol::push(commands, Command::Sleep(SWAP_MS));
        assert(protocol::command_values(commands@) =~= was + swap_steps(i as nat + 1));
        i += 1;
    }
}

fn push_moves<W>(commands: &mut Vec<Command<W>>, ops: &Vec<(String, usize)>)
    ensures
        protocol::command_values(final(commands)@) == protocol::command_values(old(commands)@)
            + swap_commands::<W>(columns::move_values(ops@)),
{
    let ghost was = protocol::command_values(commands@);
    let ghost moves = columns::move_values(ops@);
    let mut i: usize = 0;
    assert(protocol::command_values(commands@) =~= was + swap_commands::<W>(moves.take(0)));
    while i < ops.len()
        invariant
            0 <= i <= ops@.len(),
            moves == columns::move_values(ops@),
            protocol::command_values(commands@) == was + swap_commands::<W>(moves.take(i as int)),
        decreases ops@.len() - i,
    {
        protocol::push(commands, Command::FocusWindow(ops[i].0.clone()));
        push_swaps(commands, ops[i].1);
        assert(moves.take(i as int + 1).drop_last() =~= moves.take(i as int));
        assert(protocol::command_values(commands@) =~= was + swap_commands::<W>(
            moves.take(i as int + 1),
        ));
        i += 1;
    }
    assert(moves.take(moves.len() as int) =~= moves);
}

/// Appends the commands that focus a window and resize its column.
fn apply_col_width<W: Copy>(commands: &mut Vec<Command<W>>, address: &String, width: W)
    ensures
        protocol::command_values(final(commands)@) == protocol::command_values(old(commands)@)
            + resize_commands(address@, width),
{
    let ghost was = protocol::command_values(commands@);
    protocol::push(commands, Command::FocusWindow(address.clone()));
    protocol::push(commands, Command::Sleep(SETTLE_MS));
    protocol::push(commands, Command::Resize(width));
    protocol::push(commands, Command::Sleep(SETTLE_MS));
    assert(protocol::command_values(commands@) =~= was + resize_commands(address@, width));
}

/// The commands that resize columns, one after another.
fn apply_col_widths<W: Copy>(ops: &Vec<(String, W)>) -> (r: Vec<Command<W>>)
    ensures
        protocol::command_values(r@) == all_resizes(columns::width_values(ops@)),
{
    let ghost values = columns::width_values(ops@);
    let mut commands: Vec<Command<W>> = Vec::new();
    let mut i: usize = 0;
    assert(protocol::command_values(commands@) =~= all_resizes(values.take(0)));
    while i < ops.len()
        invariant
            0 <= i <= ops@.len(),
            values == columns::width_values(ops@),
            protocol::command_values(commands@) == all_resizes(values.take(i as int)),
        decreases ops@.len() - i,
    {
        apply_col_width(&mut commands, &ops[i].0, ops[i].1);
        assert(values.take(i as int + 1).drop_last() =~= values.take(i as int));
        i += 1;
    }
    assert(values.take(values.len() as int) =~= values);
    commands
}

fn find_ratio(ratios: &Vec<WidthRatio>, address: &str) -> (r: Option<(i32, i32)>)
    ensures
        match ratio_for(live::ratio_values(ratios@), address@) {
            Some(v) => r == Some((v.width, v.monitor_width)),
            None => r is None,
        },
{
    let ghost values = live::ratio_values(ratios@);
    let mut n: usize = ratios.len();
    assert(values.take(n as int) =~= values);
    while n > 0
        invariant
            0 <= n <= ratios@.len(),
            values == live::ratio_values(ratios@),
            ratio_for(values, address@) == ratio_for(values.take(n as int), address@),
        decreases n,
    {
        assert(values.take(n as int).drop_last() =~= values.take(n as int - 1));
        assert(values.take(n as int).last() == ratios@[n as int - 1]@);
        n -= 1;
        if text::same(ratios[n].address.as_str(), address) {
            return Some((ratios[n].width, ratios[n].monitor_width));
        }
    }
    None
}

fn checks<W: Copy>(ops: &Vec<(String, W)>, ratios: &Vec<WidthRatio>) -> (r: Vec<WidthCheck<W>>)
    ensures
        protocol::check_values(r@) == checks_for(
            columns::width_values(ops@),
            live::ratio_values(ratios@),
        ),
{
    let ghost values = columns::width_values(ops@);
    let ghost known = live::ratio_values(ratios@);
    let mut out: Vec<WidthCheck<W>> = Vec::new();
    let mut i: usize = 0;
    assert(protocol::check_values(out@) =~= checks_for(values.take(0), known));
    while i < ops.len()
        invariant
            0 <= i <= ops@.len(),
            values == columns::width_values(ops@),
            known == live::ratio_values(ratios@),
            protocol::check_values(out@) == checks_for(values.take(i as int), known),
        decreases ops@.len() - i,
    {
        assert(values.take(i as int + 1).drop_last() =~= values.take(i as int));
        assert(values.take(i as int + 1).last() == (ops@[i as int].0@, ops@[i as int].1));
        if let Some((width, monitor_width)) = find_ratio(ratios, ops[i].0.as_str()) {
            let ghost was = protocol::check_values(out@);
            let check = WidthCheck {
                address: ops[i].0.clone(),
                wanted: ops[i].1,
                width,
                monitor_width,
            };
            out.push(check);
            assert(protocol::check_values(out@) =~= was.push(check@));
        }
        i += 1;
    }
    assert(values.take(values.len() as int) =~= values);
    out
}

fn reapply<W: Copy>(checks: &Vec<WidthCheck<W>>, settled: &Vec<bool>) -> (r: Vec<Command<W>>)
    ensures
        protocol::command_values(r@) == all_reapplied(
            unsettled(protocol::check_values(checks@), settled@, checks@.len()),
        ),
{
    let ghost values = protocol::check_values(checks@);
    let mut out: Vec<Command<W>> = Vec::new();
    let mut i: usize = 0;
    assert(protocol::command_values(out@) =~= all_reapplied(unsettled(values, settled@, 0)));
    while i < checks.len()
        invariant
            0 <= i <= checks@.len(),
            values == protocol::check_values(checks@),
            protocol::command_values(out@) == all_reapplied(
                unsettled(values, settled@, i as nat),
            ),
        decreases checks@.len() - i,
    {
        assert(values[i as int] == checks@[i as int]@);
        if i < settled.len() && !settled[i] {
            protocol::push(&mut out, Command::WidthOff(copy_check(&checks[i])));
            apply_col_width(&mut out, &checks[i].address, checks[i].wanted);
            let ghost before = unsettled(values, settled@, i as nat);
            assert(before.push(values[i as int]).drop_last() =~= before);
        }
        i += 1;
    }
    out
}

fn class_words<W>(windows: &Vec<WindowEntry<W>>) -> (r: Vec<&str>)
    ensures
        config::words(r@) == plan::saved_classes(windows@),
{
    let mut out: Vec<&str> = Vec::new();
    let mut i: usize = 0;
    while i < windows.len()
        invariant
            0 <= i <= windows@.len(),
            out@.len() == i,
            forall|j: int| 0 <= j < i ==> (#[trigger] out@[j])@ == windows@[j].class@,
        decreases windows@.len() - i,
    {
        out.push(windows[i].class.as_str());
        i += 1;
    }
    assert(config::words(out@) =~= plan::saved_classes(windows@));
    out
}

fn width_pairs<W: Copy>(windows: &Vec<WindowEntry<W>>) -> (r: Vec<(&str, W)>)
    ensures
        columns::saved_widths(r@) == saved_pairs(windows@),
{
    let mut out: Vec<(&str, W)> = Vec::new();
    let mut i: usize = 0;
    while i < windows.len()
        invariant
            0 <= i <= windows@.len(),
            out@.len() == i,
            forall|j: int|
                0 <= j < i ==> (#[trigger] out@[j]).0@ == windows@[j].class@ && out@[j].1
                    == windows@[j].col_width,
        decreases windows@.len() - i,
    {
        out.push((windows[i].class.as_str(), windows[i].col_width));
        i += 1;
    }
    assert(columns::saved_widths(out@) =~= saved_pairs(windows@));
    out
}

fn gave_up(ws_id: i32) -> (r: String)
    ensures
        r@ == gave_up_text(ws_id),
{
    let id: String = text::i32_text(ws_id);
    let attempts: String = text::usize_text(REORDER_ATTEMPTS);
    let head: String = text::join3(
        "could not reorder workspace ",
        id.as_str(),
        " into the saved column order after ",
    );
    text::join3(head.as_str(), attempts.as_str(), " attempts")
}

impl<W: Copy> Reorder<W> {
    /// Starts on workspace `ws_id`.
    pub fn start(ws_id: i32) -> (r: (Self, Turn<W>))
        ensures
            r.0.stage@ == first_turn::<W>(ws_id).stage,
            r.1@ == first_turn::<W>(ws_id).turn,
    {
        let mut commands: Vec<Command<W>> = Vec::new();
        commands.push(Command::Sleep(SETTLE_MS));
        assert(protocol::command_values(commands@) =~= first_turn::<W>(ws_id).turn.commands);
        (Reorder { stage: Stage::Sorting(1) }, Turn { commands, query: Query::Columns(ws_id) })
    }

    fn order(attempt: usize, ws_id: i32, windows: &Vec<WindowEntry<W>>, clients: Vec<HyprClient>) -> (r:
        (Stage<W>, Turn<W>))
        ensures
            r.0@ == ordered(
                attempt as nat,
                ws_id,
                windows@,
                live::columns_of(clients@, ws_id),
            ).stage,
            r.1@ == ordered(
                attempt as nat,
                ws_id,
                windows@,
                live::columns_of(clients@, ws_id),
            ).turn,
    {
        let saved: Vec<&str> = class_words(windows);
        let mut live: Vec<LiveWindow> = live::live_windows(clients, ws_id);
        let mut commands: Vec<Command<W>> = Vec::new();
        if !columns::columns_match(saved.as_slice(), live.as_slice()) {
            let (ops, notes) = columns::plan_moves(saved.as_slice(), &mut live);
            assert(protocol::command_values(commands@) =~= Seq::<CommandValue<W>>::empty());
            let ghost told = protocol::debug_commands::<W>(text::texts(notes@));
            protocol::push_notes(&mut commands, notes);
            assert(protocol::command_values(commands@) =~= told);
            assert(columns::move_values(ops@).len() == ops@.len());
            if ops.len() > 0 {
                push_moves(&mut commands, &ops);
                protocol::push(&mut commands, Command::Sleep(SETTLE_MS));
                let stage: Stage<W> = if attempt < REORDER_ATTEMPTS {
                    Stage::Sorting(attempt + 1)
                } else {
                    Stage::Verifying
                };
                return (stage, Turn { commands, query: Query::Columns(ws_id) });
            }
        } else {
            assert(protocol::command_values(commands@) =~= Seq::<CommandValue<W>>::empty());
        }
        (Stage::Assigning, Turn { commands, query: Query::Columns(ws_id) })
    }

    /// Takes the answer to the last query and gives the next turn.
    pub fn reorder_columns(&mut self, ws_id: i32, windows: &Vec<WindowEntry<W>>, reply: Reply) -> (r:
        Turn<W>)
        ensures
            final(self).stage@ == followed(
                old(self).stage@,
                ws_id,
                windows@,
                reply@,
            ).stage,
            r@ == followed(old(self).stage@, ws_id, windows@, reply@).turn,
    {
        let mut stage: Stage<W> = Stage::Over;
        std::mem::swap(&mut stage, &mut self.stage);
        let none: Vec<Command<W>> = Vec::new();
        assert(protocol::command_values(none@) =~= Seq::<CommandValue<W>>::empty());
        match (stage, reply) {
            (Stage::Sorting(attempt), Reply::Clients(clients)) => {
                let (next, turn) = Self::order(attempt, ws_id, windows, clients);
                self.stage = next;
                turn
            },
            (Stage::Verifying, Reply::Clients(clients)) => {
                let saved: Vec<&str> = class_words(windows);
                let live: Vec<LiveWindow> = live::live_windows(clients, ws_id);
                self.stage = Stage::Assigning;
                let mut commands: Vec<Command<W>> = none;
                if !columns::columns_match(saved.as_slice(), live.as_slice()) {
                    protocol::push(&mut commands, Command::Warn(gave_up(ws_id)));
                    assert(protocol::command_values(commands@) =~= seq![
                        CommandValue::Warn(gave_up_text(ws_id)),
                    ]);
                }
                Turn { commands, query: Query::Columns(ws_id) }
            },
            (Stage::Assigning, Reply::Clients(clients)) => {
                let pairs: Vec<(&str, W)> = width_pairs(windows);
                let live: Vec<LiveWindow> = live::live_windows(clients, ws_id);
                let ops: Vec<(String, W)> = columns::plan_width_assignments(
                    pairs.as_slice(),
                    live.as_slice(),
                );
                let commands: Vec<Command<W>> = apply_col_widths(&ops);
                assert(columns::saved_widths(pairs@).len() == pairs@.len());
                assert(saved_pairs(windows@).len() == windows@.len());
                self.stage = Stage::Measuring(ops);
                Turn { commands, query: Query::Widths(ws_id) }
            },
            (Stage::Measuring(ops), Reply::Widths(clients, monitors)) => {
                let ratios: Vec<WidthRatio> = live::live_width_ratios(clients, &monitors, ws_id);
                let found: Vec<WidthCheck<W>> = checks(&ops, &ratios);
                let asked: Vec<WidthCheck<W>> = copy_checks(&found);
                self.stage = Stage::Comparing(found);
                Turn { commands: none, query: Query::Compare(asked) }
            },
            (Stage::Comparing(checks), Reply::Settled(settled)) => {
                let commands: Vec<Command<W>> = reapply(&checks, &settled);
                self.stage = Stage::Resizing;
                Turn { commands, query: Query::Nothing }
            },
            (Stage::Resizing, Reply::Done) => Turn { commands: none, query: Query::Finish(Ok(())) },
            (_, reply) => Turn {
                commands: none,
                query: Query::Finish(Err(protocol::failure_text(reply))),
            },
        }
    }
}

fn copy_check<W: Copy>(c: &WidthCheck<W>) -> (r: WidthCheck<W>)
    ensures
        r@ == c@,
{
    WidthCheck {
        address: c.address.clone(),
        wanted: c.wanted,
        width: c.width,
        monitor_width: c.monitor_width,
    }
}

fn copy_checks<W: Copy>(checks: &Vec<WidthCheck<W>>) -> (r: Vec<WidthCheck<W>>)
    ensures
        protocol::check_values(r@) == protocol::check_values(checks@),
{
    let mut out: Vec<WidthCheck<W>> = Vec::new();
    let mut i: usize = 0;
    while i < checks.len()
        invariant
            0 <= i <= checks@.len(),
            out@.len() == i,
            forall|j: int| 0 <= j < i ==> (#[trigger] out@[j])@ == checks@[j]@,
        decreases checks@.len() - i,
    {
        let copy: WidthCheck<W> = copy_check(&checks[i]);
        out.push(copy);
        i += 1;
    }
    assert(protocol::check_values(out@) =~= protocol::check_values(checks@));
    out
}

/// How many answers are still to come at most.
pub open spec fn turns_left<W>(stage: StageValue<W>) -> nat {
    match stage {
        StageValue::Sorting(n) => if n < REORDER_ATTEMPTS {
            (REORDER_ATTEMPTS - n + 6) as nat
        } else {
            6
        },
        StageValue::Verifying => 5,
        StageValue::Assigning => 4,
        StageValue::Measuring(_) => 3,
        StageValue::Comparing(_) => 2,
        StageValue::Resizing => 1,
        StageValue::Over => 0,
    }
}

/// The work on a workspace ends, whatever the answers are: each brings it nearer
/// to the end, and only the end is told as one.
pub proof fn law_reorder_ends<W>(
    stage: StageValue<W>,
    ws_id: i32,
    windows: Seq<WindowEntry<W>>,
    reply: ReplyValue,
)
    requires
        stage !is Over,
    ensures
        turns_left(followed(stage, ws_id, windows, reply).stage) < turns_left(stage),
        followed(stage, ws_id, windows, reply).stage is Over <==> followed(
            stage,
            ws_id,
            windows,
            reply,
        ).turn.query is Finish,
{
}

/// A failure is handed on as it is.
pub proof fn law_failures_are_handed_on<W>(
    stage: StageValue<W>,
    ws_id: i32,
    windows: Seq<WindowEntry<W>>,
    e: Seq<char>,
)
    ensures
        followed(stage, ws_id, windows, ReplyValue::Failed(e)) == over::<W>(Err(e)),
{
}

/// The columns on the screen, and the window that has the focus.
pub struct Screen {
    pub live: Seq<LiveValue>,
    pub focus: Seq<char>,
}

/// The screen once a command has taken effect.
pub open spec fn performed<W>(screen: Screen, command: CommandValue<W>) -> Screen {
    match command {
        CommandValue::FocusWindow(address) => Screen { focus: address, ..screen },
        CommandValue::SwapLeft => Screen {
            live: columns::bubbled(screen.live, screen.focus, 1),
            ..screen
        },
        _ => screen,
    }
}

/// The screen once all commands have taken effect.
pub open spec fn all_performed<W>(screen: Screen, commands: Seq<CommandValue<W>>) -> Screen
    decreases commands.len(),
{
    if commands.len() == 0 {
        screen
    } else {
        performed(all_performed(screen, commands.drop_last()), commands.last())
    }
}

proof fn lemma_perform_push<W>(
    screen: Screen,
    commands: Seq<CommandValue<W>>,
    command: CommandValue<W>,
)
    ensures
        all_performed(screen, commands.push(command)) == performed(
            all_performed(screen, commands),
            command,
        ),
{
    assert(commands.push(command).drop_last() =~= commands);
}

proof fn lemma_perform_swaps<W>(screen: Screen, before: Seq<CommandValue<W>>, steps: nat)
    ensures
        ({
            let at = all_performed(screen, before);
            all_performed(screen, before + swap_steps::<W>(steps)) == (Screen {
                live: columns::bubbled(at.live, at.focus, steps),
                focus: at.focus,
            })
        }),
    decreases steps,
{
    if steps == 0 {
        assert(before + swap_steps::<W>(0) =~= before);
    } else {
        let m = (steps - 1) as nat;
        lemma_perform_swaps(screen, before, m);
        let head = before + swap_steps::<W>(m);
        let mid = head.push(CommandValue::SwapLeft);
        assert(before + swap_steps::<W>(steps) =~= mid.push(CommandValue::Sleep(SWAP_MS)));
        lemma_perform_push(screen, head, CommandValue::SwapLeft);
        lemma_perform_push(screen, mid, CommandValue::Sleep(SWAP_MS));
        reveal_with_fuel(columns::bubbled, 2);
    }
}

proof fn lemma_perform_concat<W>(screen: Screen, a: Seq<CommandValue<W>>, b: Seq<CommandValue<W>>)
    ensures
        all_performed(screen, a + b) == all_performed(all_performed(screen, a), b),
    decreases b.len(),
{
    if b.len() == 0 {
        assert(a + b =~= a);
    } else {
        assert((a + b).drop_last() =~= a + b.drop_last());
        lemma_perform_concat(screen, a, b.drop_last());
    }
}

proof fn lemma_perform_notes<W>(screen: Screen, notes: Seq<Seq<char>>)
    ensures
        all_performed(screen, protocol::debug_commands::<W>(notes)) == screen,
    decreases notes.len(),
{
    if notes.len() > 0 {
        lemma_perform_notes::<W>(screen, notes.drop_last());
        assert(protocol::debug_commands::<W>(notes).drop_last() =~= protocol::debug_commands::<W>(
            notes.drop_last(),
        ));
    }
}

/// The commands for the moves carry the moves out.
pub proof fn law_commands_carry_moves_out<W>(screen: Screen, ops: Seq<(Seq<char>, nat)>)
    ensures
        all_performed(screen, swap_commands::<W>(ops)).live == columns::carried_out(
            screen.live,
            ops,
        ),
    decreases ops.len(),
{
    if ops.len() > 0 {
        law_commands_carry_moves_out::<W>(screen, ops.drop_last());
        let before = swap_commands::<W>(ops.drop_last());
        let focus = CommandValue::FocusWindow(ops.last().0);
        lemma_perform_push(screen, before, focus);
        lemma_perform_swaps(screen, before.push(focus), ops.last().1);
    }
}

/// Where all saved windows of the common columns are open, one attempt whose
/// commands take effect brings the columns into the saved order.
pub proof fn law_one_attempt_is_enough<W>(
    attempt: nat,
    ws_id: i32,
    windows: Seq<WindowEntry<W>>,
    screen: Screen,
)
    requires
        columns::distinct_addresses(screen.live),
        columns::all_there(plan::saved_classes(windows), screen.live),
    ensures
        columns::in_order(
            plan::saved_classes(windows),
            all_performed(
                screen,
                ordered(attempt, ws_id, windows, screen.live).turn.commands,
            ).live,
        ),
{
    let saved = plan::saved_classes(windows);
    let a = columns::arranged(
        saved,
        screen.live,
        columns::positions(saved.len(), screen.live.len()),
    );
    columns::law_saved_order_is_reached(saved, screen.live);
    columns::law_moves_lead_to_the_planned_order(saved, screen.live);
    let told = protocol::debug_commands::<W>(a.notes);
    lemma_perform_notes::<W>(screen, a.notes);
    lemma_perform_concat(screen, told, swap_commands::<W>(a.ops));
    law_commands_carry_moves_out::<W>(screen, a.ops);
    lemma_perform_push(
        screen,
        told + swap_commands::<W>(a.ops),
        CommandValue::Sleep(SETTLE_MS),
    );
}

/// Columns that are in order are not touched.
pub proof fn law_columns_in_order_are_not_touched<W>(
    attempt: nat,
    ws_id: i32,
    windows: Seq<WindowEntry<W>>,
    live: Seq<LiveValue>,
)
    requires
        columns::in_order(plan::saved_classes(windows), live),
    ensures
        ordered(attempt, ws_id, windows, live) == to_widths::<W>(ws_id, Seq::empty()),
{
}

/// The widths of windows, and the window that has the focus.
pub struct Sizes<W> {
    pub widths: Map<Seq<char>, W>,
    pub focus: Seq<char>,
}

/// The widths once a command has taken effect.
pub open spec fn sized<W>(sizes: Sizes<W>, command: CommandValue<W>) -> Sizes<W> {
    match command {
        CommandValue::FocusWindow(address) => Sizes { focus: address, ..sizes },
        CommandValue::Resize(width) => Sizes {
            widths: sizes.widths.insert(sizes.focus, width),
            ..sizes
        },
        _ => sizes,
    }
}

/// The widths once all commands have taken effect.
pub open spec fn all_sized<W>(sizes: Sizes<W>, commands: Seq<CommandValue<W>>) -> Sizes<W>
    decreases commands.len(),
{
    if commands.len() == 0 {
        sizes
    } else {
        sized(all_sized(sizes, commands.drop_last()), commands.last())
    }
}

proof fn lemma_sized_push<W>(
    sizes: Sizes<W>,
    commands: Seq<CommandValue<W>>,
    command: CommandValue<W>,
)
    ensures
        all_sized(sizes, commands.push(command)) == sized(all_sized(sizes, commands), command),
{
    assert(commands.push(command).drop_last() =~= commands);
}

proof fn lemma_resize_one<W>(
    sizes: Sizes<W>,
    before: Seq<CommandValue<W>>,
    address: Seq<char>,
    width: W,
)
    ensures
        ({
            let at = all_sized(sizes, before);
            all_sized(sizes, before + resize_commands(address, width)) == (Sizes {
                widths: at.widths.insert(address, width),
                focus: address,
            })
        }),
{
    let focused = before.push(CommandValue::FocusWindow(address));
    let rested = focused.push(CommandValue::Sleep(SETTLE_MS));
    let resized = rested.push(CommandValue::Resize(width));
    let over = resized.push(CommandValue::Sleep(SETTLE_MS));
    assert(before + resize_commands(address, width) =~= over);
    lemma_sized_push(sizes, before, CommandValue::FocusWindow(address));
    lemma_sized_push(sizes, focused, CommandValue::Sleep(SETTLE_MS));
    lemma_sized_push(sizes, rested, CommandValue::Resize(width));
    lemma_sized_push(sizes, resized, CommandValue::Sleep(SETTLE_MS));
}

/// The commands for the widths give every saved window that is open its saved
/// width, where no two windows have the same address.
pub proof fn law_saved_widths_are_applied<W>(
    sizes: Sizes<W>,
    saved: Seq<(Seq<char>, W)>,
    live: Seq<LiveValue>,
    n: nat,
)
    requires
        columns::distinct_addresses(live),
        n <= saved.len(),
    ensures
        forall|s: int|
            0 <= s < n ==> (#[trigger] columns::counterpart(
                columns::width_classes(saved),
                live,
                s,
            ) matches Some(address) ==> {
                let widths = all_sized(
                    sizes,
                    all_resizes(columns::assigned(saved, live, n)),
                ).widths;
                widths.contains_key(address) && widths[address] == saved[s].1
            }),
    decreases n,
{
    if n > 0 {
        let m = (n - 1) as nat;
        let classes = columns::width_classes(saved);
        law_saved_widths_are_applied(sizes, saved, live, m);
        let before = columns::assigned(saved, live, m);
        let now = columns::assigned(saved, live, n);
        let last = columns::counterpart(classes, live, n - 1);
        if let Some(address) = last {
            assert(now.drop_last() =~= before);
            lemma_resize_one(sizes, all_resizes(before), address, saved[n - 1].1);
        }
        assert forall|s: int| 0 <= s < n implies (#[trigger] columns::counterpart(
            classes,
            live,
            s,
        ) matches Some(address) ==> {
            let widths = all_sized(sizes, all_resizes(now)).widths;
            widths.contains_key(address) && widths[address] == saved[s].1
        }) by {
            if s < n - 1 && columns::counterpart(classes, live, s) is Some && last is Some {
                columns::law_widths_go_to_different_windows(classes, live, s, n - 1);
            }
        }
    }
}

proof fn lemma_nothing_unsettled<W>(checks: Seq<CheckValue<W>>, settled: Seq<bool>, n: nat)
    requires
        forall|i: int| 0 <= i < settled.len() ==> #[trigger] settled[i],
    ensures
        unsettled(checks, settled, n).len() == 0,
    decreases n,
{
    if n > 0 {
        lemma_nothing_unsettled(checks, settled, (n - 1) as nat);
    }
}

/// Widths that have settled are left as they are.
pub proof fn law_settled_widths_are_left<W>(
    checks: Seq<CheckValue<W>>,
    ws_id: i32,
    windows: Seq<WindowEntry<W>>,
    settled: Seq<bool>,
)
    requires
        forall|i: int| 0 <= i < settled.len() ==> #[trigger] settled[i],
    ensures
        followed(
            StageValue::Comparing(checks),
            ws_id,
            windows,
            ReplyValue::Settled(settled),
        ).turn.commands.len() == 0,
{
    lemma_nothing_unsettled(checks, settled, checks.len());
}

/// No two checks are for the same window.
pub open spec fn distinct_checks<W>(checks: Seq<CheckValue<W>>) -> bool {
    forall|i: int, j: int|
        0 <= i < j < checks.len() ==> (#[trigger] checks[i]).address != (
        #[trigger] checks[j]).address
}

/// Whether a check is one of the first `n` that did not settle.
spec fn is_off<W>(checks: Seq<CheckValue<W>>, settled: Seq<bool>, n: nat, c: CheckValue<W>) -> bool {
    exists|i: int|
        0 <= i < n && i < settled.len() && !settled[i] && #[trigger] checks[i] == c
}

proof fn lemma_unsettled<W>(checks: Seq<CheckValue<W>>, settled: Seq<bool>, n: nat)
    requires
        n <= checks.len(),
    ensures
        ({
            let off = unsettled(checks, settled, n);
            &&& forall|i: int|
                0 <= i < n && i < settled.len() && !settled[i] ==> off.contains(#[trigger] checks[i])
            &&& forall|k: int|
                0 <= k < off.len() ==> is_off(checks, settled, n, #[trigger] off[k])
            &&& distinct_checks(checks) ==> distinct_checks(off)
        }),
    decreases n,
{
    if n > 0 {
        let m = (n - 1) as nat;
        lemma_unsettled(checks, settled, m);
        let before = unsettled(checks, settled, m);
        let off = unsettled(checks, settled, n);
        assert forall|i: int| 0 <= i < n && i < settled.len() && !settled[i] implies off.contains(
            #[trigger] checks[i],
        ) by {
            if i < m {
                let k = choose|k: int| 0 <= k < before.len() && before[k] == checks[i];
                assert(off[k] == checks[i]);
            } else {
                assert(off[off.len() - 1] == checks[i]);
            }
        }
        assert forall|k: int| 0 <= k < off.len() implies is_off(
            checks,
            settled,
            n,
            #[trigger] off[k],
        ) by {
            if k < before.len() {
                assert(off[k] == before[k]);
                assert(is_off(checks, settled, m, before[k]));
                let i = choose|i: int|
                    0 <= i < m && i < settled.len() && !settled[i] && #[trigger] checks[i]
                        == before[k];
                assert(checks[i] == off[k]);
            } else {
                assert(checks[m as int] == off[k]);
            }
        }
        if distinct_checks(checks) {
            assert forall|a: int, b: int| 0 <= a < b < off.len() implies (
            #[trigger] off[a]).address != (#[trigger] off[b]).address by {
                assert(off[a] == before[a]);
                if b < before.len() {
                    assert(off[b] == before[b]);
                } else {
                    assert(is_off(checks, settled, m, before[a]));
                    let i = choose|i: int|
                        0 <= i < m && i < settled.len() && !settled[i] && #[trigger] checks[i]
                            == before[a];
                    assert(checks[i].address != checks[m as int].address);
                }
            }
        }
    }
}

proof fn lemma_reapplied<W>(sizes: Sizes<W>, checks: Seq<CheckValue<W>>)
    requires
        distinct_checks(checks),
    ensures
        ({
            let widths = all_sized(sizes, all_reapplied(checks)).widths;
            &&& forall|i: int|
                0 <= i < checks.len() ==> widths.contains_key((#[trigger] checks[i]).address)
                    && widths[checks[i].address] == checks[i].wanted
            &&& forall|a: Seq<char>|
                (forall|i: int| 0 <= i < checks.len() ==> (#[trigger] checks[i]).address != a)
                    ==> (#[trigger] widths.contains_key(a) <==> sizes.widths.contains_key(a))
                    && widths[a] == sizes.widths[a]
        }),
    decreases checks.len(),
{
    if checks.len() > 0 {
        let front = checks.drop_last();
        let last = checks.last();
        assert forall|i: int, j: int| 0 <= i < j < front.len() implies (
        #[trigger] front[i]).address != (#[trigger] front[j]).address by {
            assert(front[i] == checks[i] && front[j] == checks[j]);
        }
        lemma_reapplied(sizes, front);
        let before = all_reapplied(front);
        let told = before.push(CommandValue::WidthOff(last));
        lemma_sized_push(sizes, before, CommandValue::WidthOff(last));
        lemma_resize_one(sizes, told, last.address, last.wanted);
        let widths = all_sized(sizes, all_reapplied(checks)).widths;
        let was = all_sized(sizes, before).widths;
        assert(widths == was.insert(last.address, last.wanted));
        assert forall|i: int| 0 <= i < checks.len() implies widths.contains_key(
            (#[trigger] checks[i]).address,
        ) && widths[checks[i].address] == checks[i].wanted by {
            if i < front.len() {
                assert(front[i] == checks[i]);
                assert(checks[i].address != checks[checks.len() - 1].address);
            }
        }
        assert forall|a: Seq<char>|
            (forall|i: int| 0 <= i < checks.len() ==> (#[trigger] checks[i]).address
                != a) implies (#[trigger] widths.contains_key(a) <==> sizes.widths.contains_key(a))
            && widths[a] == sizes.widths[a] by {
            assert(checks[checks.len() - 1].address != a);
            assert forall|i: int| 0 <= i < front.len() implies (#[trigger] front[i]).address
                != a by {
                assert(checks[i].address != a);
            }
            assert(was.contains_key(a) <==> sizes.widths.contains_key(a));
        }
    }
}

/// A width that did not settle is applied once more, and one that did is left as it
/// is.
pub proof fn law_unsettled_widths_are_applied_again<W>(
    sizes: Sizes<W>,
    checks: Seq<CheckValue<W>>,
    ws_id: i32,
    windows: Seq<WindowEntry<W>>,
    settled: Seq<bool>,
    i: int,
)
    requires
        distinct_checks(checks),
        0 <= i < checks.len(),
        i < settled.len(),
    ensures
        ({
            let commands = followed(
                StageValue::Comparing(checks),
                ws_id,
                windows,
                ReplyValue::Settled(settled),
            ).turn.commands;
            let widths = all_sized(sizes, commands).widths;
            let address = checks[i].address;
            &&& !settled[i] ==> widths.contains_key(address) && widths[address] == checks[i].wanted
            &&& settled[i] ==> (widths.contains_key(address) <==> sizes.widths.contains_key(address))
                && widths[address] == sizes.widths[address]
        }),
{
    let off = unsettled(checks, settled, checks.len());
    lemma_unsettled(checks, settled, checks.len());
    lemma_reapplied(sizes, off);
    if settled[i] {
        assert forall|k: int| 0 <= k < off.len() implies (#[trigger] off[k]).address
            != checks[i].address by {
            assert(is_off(checks, settled, checks.len(), off[k]));
            let j = choose|j: int|
                0 <= j < checks.len() && j < settled.len() && !settled[j] && #[trigger] checks[j]
                    == off[k];
            if j < i {
                assert(checks[j].address != checks[i].address);
            } else {
                assert(checks[i].address != checks[j].address);
            }
        }
        let widths = all_sized(sizes, all_reapplied(off)).widths;
        assert(widths.contains_key(checks[i].address) <==> sizes.widths.contains_key(
            checks[i].address,
        ));
    } else {
        assert(off.contains(checks[i]));
        let k = choose|k: int| 0 <= k < off.len() && off[k] == checks[i];
        assert(off[k] == checks[i]);
    }
}

/// A width that was asked for is held against the one that the same window has now;
/// a window that is gone is not looked at.
pub proof fn law_widths_are_held_against_their_own_window<W>(
    ops: Seq<(Seq<char>, W)>,
    address: Seq<char>,
    width: W,
    ratios: Seq<RatioValue>,
    j: int,
)
    ensures
        checks_for(Seq::<(Seq<char>, W)>::empty(), ratios).len() == 0,
        0 <= j < ratios.len() && ratios[j].address == address && (forall|k: int|
            j < k < ratios.len() ==> (#[trigger] ratios[k]).address != address) ==> checks_for(
            ops.push((address, width)),
            ratios,
        ) == checks_for(ops, ratios).push(
            CheckValue {
                address,
                wanted: width,
                width: ratios[j].width,
                monitor_width: ratios[j].monitor_width,
            },
        ),
        (forall|k: int| 0 <= k < ratios.len() ==> (#[trigger] ratios[k]).address != address)
            ==> checks_for(ops.push((address, width)), ratios) == checks_for(ops, ratios),
{
    assert(ops.push((address, width)).drop_last() =~= ops);
    if 0 <= j < ratios.len() && ratios[j].address == address && (forall|k: int|
        j < k < ratios.len() ==> (#[trigger] ratios[k]).address != address) {
        lemma_last_ratio(ratios, address, j);
    }
    if forall|k: int| 0 <= k < ratios.len() ==> (#[trigger] ratios[k]).address != address {
        lemma_no_ratio(ratios, address);
    }
}

proof fn lemma_last_ratio(ratios: Seq<RatioValue>, address: Seq<char>, j: int)
    requires
        0 <= j < ratios.len(),
        ratios[j].address == address,
        forall|k: int| j < k < ratios.len() ==> (#[trigger] ratios[k]).address != address,
    ensures
        ratio_for(ratios, address) == Some(ratios[j]),
    decreases ratios.len(),
{
    if j < ratios.len() - 1 {
        let front = ratios.drop_last();
        assert(ratios[ratios.len() - 1].address != address);
        assert(front[j] == ratios[j]);
        assert forall|k: int| j < k < front.len() implies (#[trigger] front[k]).address
            != address by {
            assert(ratios[k].address != address);
        }
        lemma_last_ratio(front, address, j);
    }
}

proof fn lemma_no_ratio(ratios: Seq<RatioValue>, address: Seq<char>)
    requires
        forall|k: int| 0 <= k < ratios.len() ==> (#[trigger] ratios[k]).address != address,
    ensures
        ratio_for(ratios, address) is None,
    decreases ratios.len(),
{
    if ratios.len() > 0 {
        let front = ratios.drop_last();
        assert(ratios[ratios.len() - 1].address != address);
        assert forall|k: int| 0 <= k < front.len() implies (#[trigger] front[k]).address
            != address by {
            assert(ratios[k].address != address);
        }
        lemma_no_ratio(front, address);
    }
}

/// The compositor is given time: 150 ms after each swap, 200 ms before and after a
/// resize, and 200 ms before the columns are listed.
pub proof fn law_commands_leave_time<W>(steps: nat, address: Seq<char>, width: W, ws_id: i32)
    ensures
        swap_steps::<W>(0).len() == 0,
        swap_steps::<W>(steps + 1) == swap_steps::<W>(steps).push(CommandValue::SwapLeft).push(
            CommandValue::Sleep(150),
        ),
        resize_commands(address, width).len() == 4,
        resize_commands(address, width)[0] == CommandValue::<W>::FocusWindow(address),
        resize_commands(address, width)[1] == CommandValue::<W>::Sleep(200),
        resize_commands(address, width)[2] == CommandValue::Resize(width),
        resize_commands(address, width)[3] == CommandValue::<W>::Sleep(200),
        first_turn::<W>(ws_id).turn.commands.len() == 1,
        first_turn::<W>(ws_id).turn.commands[0] == CommandValue::<W>::Sleep(200),
        first_turn::<W>(ws_id).turn.query == QueryValue::<W>::Columns(ws_id),
{
    assert(swap_steps::<W>(steps + 1) =~= swap_steps::<W>(steps).push(CommandValue::SwapLeft).push(
        CommandValue::Sleep(150),
    ));
}

/// The columns are listed again after every attempt, there are three attempts, and a
/// warning is given exactly where the order is still not right after the last.
pub proof fn law_order_is_tried_three_times<W>(
    attempt: nat,
    ws_id: i32,
    windows: Seq<WindowEntry<W>>,
    clients: Seq<HyprClient>,
)
    ensures
        ({
            let live = live::columns_of(clients, ws_id);
            let saved = plan::saved_classes(windows);
            let tried = followed(
                StageValue::Sorting(attempt),
                ws_id,
                windows,
                ReplyValue::Clients(clients),
            );
            let verified = followed(
                StageValue::Verifying,
                ws_id,
                windows,
                ReplyValue::Clients(clients),
            );
            &&& tried.turn.query == QueryValue::<W>::Columns(ws_id)
            &&& tried.stage is Assigning || (attempt < 3 && tried.stage == StageValue::<W>::Sorting(
                attempt + 1,
            )) || (attempt >= 3 && tried.stage is Verifying)
            &&& tried.stage !is Assigning ==> !columns::in_order(saved, live)
                && tried.turn.commands.last() == CommandValue::<W>::Sleep(200)
            &&& verified.stage is Assigning && verified.turn.query == QueryValue::<W>::Columns(ws_id)
            &&& columns::in_order(saved, live) <==> verified.turn.commands.len() == 0
            &&& !columns::in_order(saved, live) ==> verified.turn.commands.len() == 1
                && verified.turn.commands[0] is Warn
        }),
{
}

/// The widths are given to the columns that are open, then measured, then compared:
/// what was given is what is compared.
pub proof fn law_widths_are_given_and_measured<W>(
    ws_id: i32,
    windows: Seq<WindowEntry<W>>,
    clients: Seq<HyprClient>,
    monitors: Map<i32, i32>,
    ops: Seq<(Seq<char>, W)>,
)
    ensures
        ({
            let given = followed(
                StageValue::Assigning,
                ws_id,
                windows,
                ReplyValue::Clients(clients),
            );
            let measured = followed(
                StageValue::Measuring(ops),
                ws_id,
                windows,
                ReplyValue::Widths(clients, monitors),
            );
            &&& given.turn.query == QueryValue::<W>::Widths(ws_id)
            &&& given.stage matches StageValue::Measuring(o) && given.turn.commands == all_resizes(o)
                && o == columns::assigned(
                windows.map_values(|w: WindowEntry<W>| (w.class@, w.col_width)),
                live::columns_of(clients, ws_id),
                windows.len(),
            )
            &&& measured.stage matches StageValue::Comparing(c) && measured.turn.query
                == QueryValue::Compare(c) && measured.turn.commands.len() == 0 && c == checks_for(
                ops,
                live::ratios_of(clients, monitors, ws_id),
            )
        }),
{
    assert(windows.map_values(|w: WindowEntry<W>| (w.class@, w.col_width)) =~= saved_pairs(windows));
}

/// Giving up is told with the workspace and the number of attempts, which is three.
pub proof fn law_giving_up_is_told(ws_id: i32)
    ensures
        gave_up_text(ws_id) == "could not reorder workspace "@ + text::signed_decimal(ws_id as int)
            + " into the saved column order after "@ + text::decimal(3) + " attempts"@,
{
}

} // verus!
