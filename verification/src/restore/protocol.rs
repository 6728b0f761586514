//! What a restore asks of its surroundings, and what comes back.
//!
//! A restore decides, and does nothing itself. Each turn it gives commands, which
//! are carried out in order until one fails, and a query, which is put once they
//! are done. The answer leads to the next turn.

use std::collections::HashMap;

use vstd::prelude::*;

use crate::hyprland::HyprClient;
use crate::text;

verus! {

/// A width that was asked for, and the one that a window has:
/// `width / monitor_width`.
pub struct WidthCheck<W> {
    pub address: String,
    pub wanted: W,
    pub width: i32,
    pub monitor_width: i32,
}

/// A width that was asked for and the one that came of it, as values.
pub struct CheckValue<W> {
    pub address: Seq<char>,
    pub wanted: W,
    pub width: i32,
    pub monitor_width: i32,
}

impl<W> View for WidthCheck<W> {
    type V = CheckValue<W>;

    open spec fn view(&self) -> CheckValue<W> {
        CheckValue {
            address: self.address@,
            wanted: self.wanted,
            width: self.width,
            monitor_width: self.monitor_width,
        }
    }
}

/// The values of a sequence of width checks.
pub open spec fn check_values<W>(v: Seq<WidthCheck<W>>) -> Seq<CheckValue<W>> {
    v.map_values(|c: WidthCheck<W>| c@)
}

/// Something to be done.
pub enum Command<W> {
    /// Tell the user how far the restore is.
    Progress(String),
    /// Tell the user what went wrong.
    Warn(String),
    /// Tell the user something about one window.
    Note(String),
    /// Tell a user who wants diagnostics what is going on.
    Debug(String),
    /// Tell a user who wants diagnostics that a width did not settle and is applied
    /// once more.
    WidthOff(WidthCheck<W>),
    /// Wait, in milliseconds.
    Sleep(u64),
    /// Wait, in seconds.
    SleepSecs(u64),
    FocusWorkspace(i32),
    FocusWindow(String),
    /// Swap the focused column with its left neighbour.
    SwapLeft,
    /// Resize the focused column to a fraction of the monitor.
    Resize(W),
    /// Move a window to a workspace without following it.
    MoveTo(String, i32),
    SpawnOverlay,
    /// Show a line on the overlay.
    OverlayProgress(String),
    KillOverlay,
}

/// Something to be done, as values.
pub enum CommandValue<W> {
    Progress(Seq<char>),
    Warn(Seq<char>),
    Note(Seq<char>),
    Debug(Seq<char>),
    WidthOff(CheckValue<W>),
    Sleep(u64),
    SleepSecs(u64),
    FocusWorkspace(i32),
    FocusWindow(Seq<char>),
    SwapLeft,
    Resize(W),
    MoveTo(Seq<char>, i32),
    SpawnOverlay,
    OverlayProgress(Seq<char>),
    KillOverlay,
}

impl<W> View for Command<W> {
    type V = CommandValue<W>;

    open spec fn view(&self) -> CommandValue<W> {
        match *self {
            Command::Progress(t) => CommandValue::Progress(t@),
            Command::Warn(t) => CommandValue::Warn(t@),
            Command::Note(t) => CommandValue::Note(t@),
            Command::Debug(t) => CommandValue::Debug(t@),
            Command::WidthOff(c) => CommandValue::WidthOff(c@),
            Command::Sleep(ms) => CommandValue::Sleep(ms),
            Command::SleepSecs(s) => CommandValue::SleepSecs(s),
            Command::FocusWorkspace(id) => CommandValue::FocusWorkspace(id),
            Command::FocusWindow(a) => CommandValue::FocusWindow(a@),
            Command::SwapLeft => CommandValue::SwapLeft,
            Command::Resize(w) => CommandValue::Resize(w),
            Command::MoveTo(a, id) => CommandValue::MoveTo(a@, id),
            Command::SpawnOverlay => CommandValue::SpawnOverlay,
            Command::OverlayProgress(t) => CommandValue::OverlayProgress(t@),
            Command::KillOverlay => CommandValue::KillOverlay,
        }
    }
}

/// The values of a sequence of commands.
pub open spec fn command_values<W>(commands: Seq<Command<W>>) -> Seq<CommandValue<W>> {
    commands.map_values(|c: Command<W>| c@)
}

/// Appends a command.
pub(crate) fn push<W>(commands: &mut Vec<Command<W>>, command: Command<W>)
    ensures
        command_values(final(commands)@) == command_values(old(commands)@).push(command@),
{
    let ghost was = command_values(commands@);
    commands.push(command);
    assert(command_values(commands@) =~= was.push(command@));
}

/// Diagnostics, one after another.
pub open spec fn debug_commands<W>(notes: Seq<Seq<char>>) -> Seq<CommandValue<W>> {
    notes.map_values(|t: Seq<char>| CommandValue::Debug(t))
}

/// Appends diagnostics.
pub(crate) fn push_notes<W>(commands: &mut Vec<Command<W>>, notes: Vec<String>)
    ensures
        command_values(final(commands)@) == command_values(old(commands)@) + debug_commands::<W>(
            text::texts(notes@),
        ),
{
    let ghost was = command_values(commands@);
    let ghost all = text::texts(notes@);
    let mut i: usize = 0;
    assert(command_values(commands@) =~= was + debug_commands::<W>(all.take(0)));
    while i < notes.len()
        invariant
            0 <= i <= notes@.len(),
            all == text::texts(notes@),
            command_values(commands@) == was + debug_commands::<W>(all.take(i as int)),
        decreases notes@.len() - i,
    {
        push(commands, Command::Debug(notes[i].clone()));
        assert(was + debug_commands::<W>(all.take(i as int + 1)) =~= (was + debug_commands::<W>(
            all.take(i as int),
        )).push(CommandValue::Debug(all[i as int])));
        i += 1;
    }
    assert(all.take(all.len() as int) =~= all);
}

/// Something to be found out.
pub enum Query<W> {
    /// Whether the commands succeeded, and nothing more.
    Nothing,
    /// The open windows.
    Clients,
    /// The open windows, for the columns of a workspace.
    Columns(i32),
    /// The open windows and the widths of the monitors, for the columns of a
    /// workspace.
    Widths(i32),
    /// Which of the widths came out close enough to what was asked for.
    Compare(Vec<WidthCheck<W>>),
    /// Take the lock that keeps other restores away.
    AcquireLock,
    /// Listen to the events of windows that open and close.
    Subscribe,
    /// The command that launches a class that ran from an executable.
    Resolve { class: String, exe: String },
    /// Start a program with arguments.
    Spawn(Vec<String>),
    /// Wait until as many new windows of a class are open, or until the deadline of
    /// `hyprland::wait_deadline`, and give their number.
    Wait { class: String, count: usize },
    /// The restore is over.
    Finish(Result<(), String>),
}

/// Something to be found out, as values.
pub enum QueryValue<W> {
    Nothing,
    Clients,
    Columns(i32),
    Widths(i32),
    Compare(Seq<CheckValue<W>>),
    AcquireLock,
    Subscribe,
    Resolve { class: Seq<char>, exe: Seq<char> },
    Spawn(Seq<Seq<char>>),
    Wait { class: Seq<char>, count: nat },
    Finish(Result<(), Seq<char>>),
}

/// A result, as values.
pub open spec fn result_value(r: Result<(), String>) -> Result<(), Seq<char>> {
    match r {
        Ok(_) => Ok(()),
        Err(e) => Err(e@),
    }
}

impl<W> View for Query<W> {
    type V = QueryValue<W>;

    open spec fn view(&self) -> QueryValue<W> {
        match *self {
            Query::Nothing => QueryValue::Nothing,
            Query::Clients => QueryValue::Clients,
            Query::Columns(id) => QueryValue::Columns(id),
            Query::Widths(id) => QueryValue::Widths(id),
            Query::Compare(checks) => QueryValue::Compare(check_values(checks@)),
            Query::AcquireLock => QueryValue::AcquireLock,
            Query::Subscribe => QueryValue::Subscribe,
            Query::Resolve { class, exe } => QueryValue::Resolve { class: class@, exe: exe@ },
            Query::Spawn(argv) => QueryValue::Spawn(text::texts(argv@)),
            Query::Wait { class, count } => QueryValue::Wait { class: class@, count: count as nat },
            Query::Finish(r) => QueryValue::Finish(result_value(r)),
        }
    }
}

/// What came back: the answer to the query, or the first failure.
pub enum Reply {
    Done,
    Failed(String),
    Clients(Vec<HyprClient>),
    Widths(Vec<HyprClient>, HashMap<i32, i32>),
    Settled(Vec<bool>),
    Command(Option<Vec<String>>),
    Count(usize),
}

/// What came back, as values.
pub enum ReplyValue {
    Done,
    Failed(Seq<char>),
    Clients(Seq<HyprClient>),
    Widths(Seq<HyprClient>, Map<i32, i32>),
    Settled(Seq<bool>),
    Command(Option<Seq<Seq<char>>>),
    Count(nat),
}

impl View for Reply {
    type V = ReplyValue;

    open spec fn view(&self) -> ReplyValue {
        match *self {
            Reply::Done => ReplyValue::Done,
            Reply::Failed(e) => ReplyValue::Failed(e@),
            Reply::Clients(c) => ReplyValue::Clients(c@),
            Reply::Widths(c, m) => ReplyValue::Widths(c@, m@),
            Reply::Settled(s) => ReplyValue::Settled(s@),
            Reply::Command(Some(c)) => ReplyValue::Command(Some(text::texts(c@))),
            Reply::Command(None) => ReplyValue::Command(None),
            Reply::Count(n) => ReplyValue::Count(n as nat),
        }
    }
}

/// What went wrong: the failure, or an answer to another query.
pub open spec fn failure(reply: ReplyValue) -> Seq<char> {
    match reply {
        ReplyValue::Failed(e) => e,
        _ => "unexpected answer"@,
    }
}

/// What went wrong: the failure, or an answer to another query.
pub(crate) fn failure_text(reply: Reply) -> (r: String)
    ensures
        r@ == failure(reply@),
{
    match reply {
        Reply::Failed(e) => e,
        _ => "unexpected answer".to_owned(),
    }
}

/// One turn of a restore.
pub struct Turn<W> {
    pub commands: Vec<Command<W>>,
    pub query: Query<W>,
}

/// One turn of a restore, as values.
pub struct TurnValue<W> {
    pub commands: Seq<CommandValue<W>>,
    pub query: QueryValue<W>,
}

impl<W> View for Turn<W> {
    type V = TurnValue<W>;

    open spec fn view(&self) -> TurnValue<W> {
        TurnValue { commands: command_values(self.commands@), query: self.query@ }
    }
}

/// What went wrong is told as it came, and diagnostics are told in their order.
pub proof fn law_failures_are_told_as_they_came<W>(e: Seq<char>, notes: Seq<Seq<char>>, i: int)
    requires
        0 <= i < notes.len(),
    ensures
        failure(ReplyValue::Failed(e)) == e,
        debug_commands::<W>(notes).len() == notes.len(),
        debug_commands::<W>(notes)[i] == CommandValue::<W>::Debug(notes[i]),
{
}

} // verus!
