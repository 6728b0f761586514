//! The lock that keeps two restores from running at the same time.
//!
//! The lock is a file with the process id of its holder. It is published in one
//! step that fails where there is a lock already, so of several takers one wins.
//! A lock whose holder is gone is cleared and taken.

use vstd::prelude::*;

use crate::text;

verus! {

/// How often the lock is tried for.
pub const LOCK_ATTEMPTS: usize = 5;

/// What came of publishing the lock.
pub enum LockReply {
    /// The lock is ours.
    Linked,
    /// There is a lock already, and its holder runs, or does not.
    Exists { held: bool },
    /// Something else went wrong.
    Failed(String),
}

/// What is to be done next. The lock is published by a hard link to a file that was
/// written before; that file is removed at the end, which is any of the last three.
#[derive(Debug, PartialEq)]
pub enum LockAction {
    /// Publish the lock.
    Link,
    /// Clear the stale lock, then publish the lock.
    ClearAndLink,
    /// Clear the stale lock, then give up with this failure.
    ClearAndFail(String),
    /// Give up with this failure.
    Fail(String),
    /// The lock is taken.
    Taken,
}

/// What is to be done next, as values.
pub enum LockStep {
    Link,
    ClearAndLink,
    ClearAndFail(Seq<char>),
    Fail(Seq<char>),
    Taken,
}

impl View for LockAction {
    type V = LockStep;

    open spec fn view(&self) -> LockStep {
        match *self {
            LockAction::Link => LockStep::Link,
            LockAction::ClearAndLink => LockStep::ClearAndLink,
            LockAction::ClearAndFail(e) => LockStep::ClearAndFail(e@),
            LockAction::Fail(e) => LockStep::Fail(e@),
            LockAction::Taken => LockStep::Taken,
        }
    }
}

/// Told where another restore runs.
pub open spec fn running_text(path: Seq<char>) -> Seq<char> {
    "restore already running (remove "@ + path + " to override)"@
}

/// Told where the lock was not to be had.
pub open spec fn gave_up_text(path: Seq<char>) -> Seq<char> {
    "could not acquire lock at "@ + path
}

/// What follows, where the lock has been tried for `tries` times.
pub open spec fn followed(tries: nat, path: Seq<char>, reply: LockReply) -> LockStep {
    match reply {
        LockReply::Linked => LockStep::Taken,
        LockReply::Exists { held } => if held {
            LockStep::Fail(running_text(path))
        } else if tries < LOCK_ATTEMPTS {
            LockStep::ClearAndLink
        } else {
            LockStep::ClearAndFail(gave_up_text(path))
        },
        LockReply::Failed(e) => LockStep::Fail(e@),
    }
}

/// The taking of the lock.
#[derive(Debug, Clone, Copy, PartialEq, Eq)]
pub struct LockGuard {
    /// How often the lock has been tried for, the current try with it.
    pub tries: usize,
}

impl LockGuard {
    /// Starts to take the lock.
    pub fn acquire() -> (r: (Self, LockAction))
        ensures
            r.0.tries == 1,
            r.1@ == LockStep::Link,
    {
        (LockGuard { tries: 1 }, LockAction::Link)
    }

    /// Takes what came of the last try and says what is to be done next.
    pub fn follow(&mut self, path: &str, reply: LockReply) -> (r: LockAction)
        ensures
            r@ == followed(old(self).tries as nat, path@, reply),
            final(self).tries == (if r@ is ClearAndLink {
                old(self).tries + 1
            } else {
                old(self).tries as int
            }),
    {
        match reply {
            LockReply::Linked => LockAction::Taken,
            LockReply::Exists { held } => {
                if held {
                    LockAction::Fail(
                        text::join3(
                            "restore already running (remove ",
                            path,
                            " to override)",
                        ),
                    )
                } else if self.tries < LOCK_ATTEMPTS {
                    self.tries = self.tries + 1;
                    LockAction::ClearAndLink
                } else {
                    LockAction::ClearAndFail(text::join2("could not acquire lock at ", path))
                }
            },
            LockReply::Failed(e) => LockAction::Fail(e),
        }
    }

    /// The process that a lock names, if it names one.
    pub fn holder(contents: Option<&str>) -> (r: Option<u32>)
        ensures
            r == holder_of(
                match contents {
                    Some(c) => Some(c@),
                    None => None,
                },
            ),
    {
        match contents {
            Some(c) => {
                let pid: String = text::trim(c);
                text::parse_u32(pid.as_str())
            },
            None => None,
        }
    }

    /// Whether a lock is held: it names a process, and that process runs. A lock
    /// that cannot be read or names no process is not held, so that it does not
    /// stand in the way for good.
    pub fn is_held(contents: Option<&str>, runs: bool) -> (r: bool)
        ensures
            r == (runs && holder_of(
                match contents {
                    Some(c) => Some(c@),
                    None => None,
                },
            ) is Some),
    {
        runs && Self::holder(contents).is_some()
    }
}

/// The process that a lock names, if it names one.
pub open spec fn holder_of(contents: Option<Seq<char>>) -> Option<u32> {
    match contents {
        Some(c) => text::u32_of(text::trimmed(c)),
        None => None,
    }
}

/// What a lock of process `pid` holds.
pub fn lock_contents(pid: u32) -> (r: String)
    ensures
        r@ == text::decimal(pid as nat),
{
    text::u64_text(pid as u64)
}

/// The file extension of the file that process `pid` publishes as the lock.
pub fn temp_extension(pid: u32) -> (r: String)
    ensures
        r@ == "lock.tmp."@ + text::decimal(pid as nat),
{
    let number: String = text::u64_text(pid as u64);
    text::join2("lock.tmp.", number.as_str())
}

/// A lock names the process that wrote it.
pub proof fn law_locks_name_their_writer(pid: u32)
    ensures
        holder_of(Some(text::decimal(pid as nat))) == Some(pid),
{
    text::law_decimal_reads_back(pid as nat);
    let c = text::decimal(pid as nat);
    assert(c.len() > 0);
    assert(!text::is_space(c[0]));
    assert(!text::is_space(c.last()));
    assert(text::trimmed_start(c) == c);
    assert(text::trimmed_end(c) == c);
}

/// A lock whose holder runs is neither cleared nor taken.
pub proof fn law_held_locks_are_respected(tries: nat, path: Seq<char>)
    ensures
        followed(tries, path, LockReply::Exists { held: true }) == LockStep::Fail(
            running_text(path),
        ),
{
}

/// The lock is taken only where publishing it succeeded.
pub proof fn law_taken_means_published(tries: nat, path: Seq<char>, reply: LockReply)
    ensures
        followed(tries, path, reply) is Taken <==> reply is Linked,
{
}

/// A stale lock is cleared, and the lock is tried for again, as long as tries are
/// left.
pub proof fn law_stale_locks_are_reclaimed(tries: nat, path: Seq<char>)
    requires
        tries < LOCK_ATTEMPTS,
    ensures
        followed(tries, path, LockReply::Exists { held: false }) is ClearAndLink,
{
}

/// After the last try the lock is not tried for again.
pub proof fn law_lock_tries_are_bounded(tries: nat, path: Seq<char>, reply: LockReply)
    requires
        tries >= LOCK_ATTEMPTS,
    ensures
        !(followed(tries, path, reply) is ClearAndLink),
{
}

/// What is at the path of the lock.
pub enum LockFile {
    Absent,
    /// A file that cannot be read.
    Unreadable,
    Holds(Seq<char>),
}

/// What can be read at the path of the lock.
pub open spec fn contents_of(file: LockFile) -> Option<Seq<char>> {
    match file {
        LockFile::Holds(c) => Some(c),
        _ => None,
    }
}

/// Whether the lock names a process that runs.
pub open spec fn is_held_in(file: LockFile, runs: spec_fn(u32) -> bool) -> bool {
    holder_of(contents_of(file)) matches Some(pid) && runs(pid)
}

/// How far a taker of the lock is.
pub enum Phase {
    /// It is going to publish its lock, for the given time.
    Linking(nat),
    /// There was a lock already, which it is going to look at.
    Looking(nat),
    /// It is going to clear that lock, and then to do the step.
    Clearing(nat, LockStep),
    /// It is done, with the step that it ended in.
    Done(LockStep),
}

/// A taker of the lock.
pub struct Taker {
    pub pid: u32,
    pub phase: Phase,
    /// Whether the file that is published as the lock is still there under its own
    /// name.
    pub temp: bool,
}

/// The path of the lock, and those who want to take it.
pub struct Scene {
    pub lock: LockFile,
    pub takers: Seq<Taker>,
}

/// A taker that is about to try for the lock.
pub open spec fn ready(pid: u32) -> Taker {
    Taker { pid, phase: Phase::Linking(1), temp: true }
}

/// A taker that is told to do a step: to clear first, or to end.
pub open spec fn told(t: Taker, tries: nat, step: LockStep) -> Taker {
    match step {
        LockStep::ClearAndLink | LockStep::ClearAndFail(_) => Taker {
            phase: Phase::Clearing(tries, step),
            ..t
        },
        LockStep::Link => Taker { phase: Phase::Linking(tries), ..t },
        _ => Taker { phase: Phase::Done(step), temp: false, ..t },
    }
}

/// The scene once taker `i` has taken one step. Publishing the lock succeeds where
/// there is none, and only there, and shows its whole content at once.
pub open spec fn acted(
    scene: Scene,
    i: int,
    runs: spec_fn(u32) -> bool,
    path: Seq<char>,
) -> Scene {
    let t = scene.takers[i];
    let (lock, next) = match t.phase {
        Phase::Linking(n) => if scene.lock is Absent {
            (
                LockFile::Holds(text::decimal(t.pid as nat)),
                told(t, n, followed(n, path, LockReply::Linked)),
            )
        } else {
            (scene.lock, Taker { phase: Phase::Looking(n), ..t })
        },
        Phase::Looking(n) => (
            scene.lock,
            told(
                t,
                n,
                followed(n, path, LockReply::Exists { held: is_held_in(scene.lock, runs) }),
            ),
        ),
        Phase::Clearing(n, step) => (
            LockFile::Absent,
            match step {
                LockStep::ClearAndLink => Taker { phase: Phase::Linking(n + 1), ..t },
                _ => Taker { phase: Phase::Done(step), temp: false, ..t },
            },
        ),
        Phase::Done(_) => (scene.lock, t),
    };
    Scene { lock, takers: scene.takers.update(i, next) }
}

/// The scene once takers have acted one after another, in the order of the
/// schedule.
pub open spec fn all_acted(
    scene: Scene,
    schedule: Seq<int>,
    runs: spec_fn(u32) -> bool,
    path: Seq<char>,
) -> Scene
    decreases schedule.len(),
{
    if schedule.len() == 0 {
        scene
    } else {
        acted(all_acted(scene, schedule.drop_last(), runs, path), schedule.last(), runs, path)
    }
}

/// The scene once its only taker has acted `n` times.
pub open spec fn after_steps(
    scene: Scene,
    n: nat,
    runs: spec_fn(u32) -> bool,
    path: Seq<char>,
) -> Scene
    decreases n,
{
    if n == 0 {
        scene
    } else {
        acted(after_steps(scene, (n - 1) as nat, runs, path), 0, runs, path)
    }
}

/// A process alone takes the lock unless one that runs holds it. It is refused
/// where one does, and the lock stays as it is. In every other case (no lock, one
/// that cannot be read, names no process, or names one that is gone) it takes the
/// lock, which then names it. Either way the file that it had written is gone.
pub proof fn law_lock_is_taken_unless_held(
    file: LockFile,
    pid: u32,
    n: nat,
    runs: spec_fn(u32) -> bool,
    path: Seq<char>,
)
    requires
        n >= 4,
    ensures
        ({
            let start = Scene { lock: file, takers: seq![ready(pid)] };
            let end = after_steps(start, n, runs, path);
            &&& end.takers.len() == 1
            &&& !end.takers[0].temp
            &&& is_held_in(file, runs) ==> end.lock == file && end.takers[0].phase == Phase::Done(
                LockStep::Fail(running_text(path)),
            )
            &&& !is_held_in(file, runs) ==> end.takers[0].phase == Phase::Done(LockStep::Taken)
                && end.lock == LockFile::Holds(text::decimal(pid as nat)) && holder_of(
                contents_of(end.lock),
            ) == Some(pid)
        }),
    decreases n,
{
    law_locks_name_their_writer(pid);
    let start = Scene { lock: file, takers: seq![ready(pid)] };
    if n == 4 {
        let s1 = after_steps(start, 1, runs, path);
        let s2 = after_steps(start, 2, runs, path);
        let s3 = after_steps(start, 3, runs, path);
        let s4 = after_steps(start, 4, runs, path);
        assert(after_steps(start, 0, runs, path) == start);
        assert(s1 == acted(start, 0, runs, path));
        assert(s2 == acted(s1, 0, runs, path));
        assert(s3 == acted(s2, 0, runs, path));
        assert(s4 == acted(s3, 0, runs, path));
    } else {
        law_lock_is_taken_unless_held(file, pid, (n - 1) as nat, runs, path);
    }
}

/// Whether `taker` has not got the lock, and where it is done was refused.
pub open spec fn is_kept_out(taker: Taker, path: Seq<char>) -> bool {
    match taker.phase {
        Phase::Linking(n) => n == 1,
        Phase::Looking(n) => n == 1,
        Phase::Clearing(_, _) => false,
        Phase::Done(step) => step == LockStep::Fail(running_text(path)) && !taker.temp,
    }
}

/// A lock that a running process holds is neither cleared nor taken, however many
/// processes want it and in whatever order they act.
pub proof fn law_held_lock_withstands_all(
    file: LockFile,
    pids: Seq<u32>,
    schedule: Seq<int>,
    runs: spec_fn(u32) -> bool,
    path: Seq<char>,
)
    requires
        is_held_in(file, runs),
        forall|k: int| 0 <= k < schedule.len() ==> 0 <= #[trigger] schedule[k] < pids.len(),
    ensures
        ({
            let start = Scene { lock: file, takers: pids.map_values(|p: u32| ready(p)) };
            let end = all_acted(start, schedule, runs, path);
            &&& end.lock == file
            &&& end.takers.len() == pids.len()
            &&& forall|i: int|
                0 <= i < pids.len() ==> is_kept_out(#[trigger] end.takers[i], path)
                    && end.takers[i].pid == pids[i]
        }),
    decreases schedule.len(),
{
    if schedule.len() > 0 {
        let front = schedule.drop_last();
        assert forall|k: int| 0 <= k < front.len() implies 0 <= #[trigger] front[k]
            < pids.len() by {
            assert(front[k] == schedule[k]);
        }
        law_held_lock_withstands_all(file, pids, front, runs, path);
        let start = Scene { lock: file, takers: pids.map_values(|p: u32| ready(p)) };
        let before = all_acted(start, front, runs, path);
        let i = schedule.last();
        assert(schedule[schedule.len() - 1] == i);
        assert(is_kept_out(before.takers[i], path));
    }
}

/// Of several running processes that want a free lock, the one that acts first
/// takes it, and no other does, in whatever order they go on. The lock then names
/// the one that took it, and every other one that is done was refused.
pub proof fn law_one_taker_wins(
    pids: Seq<u32>,
    schedule: Seq<int>,
    runs: spec_fn(u32) -> bool,
    path: Seq<char>,
)
    requires
        schedule.len() > 0,
        forall|k: int| 0 <= k < schedule.len() ==> 0 <= #[trigger] schedule[k] < pids.len(),
        forall|i: int| 0 <= i < pids.len() ==> runs(#[trigger] pids[i]),
    ensures
        ({
            let start = Scene { lock: LockFile::Absent, takers: pids.map_values(|p: u32| ready(p)) };
            let end = all_acted(start, schedule, runs, path);
            let winner = schedule[0];
            &&& end.lock == LockFile::Holds(text::decimal(pids[winner] as nat))
            &&& end.takers.len() == pids.len()
            &&& end.takers[winner].phase == Phase::Done(LockStep::Taken)
            &&& !end.takers[winner].temp
            &&& forall|i: int|
                0 <= i < pids.len() && i != winner ==> is_kept_out(#[trigger] end.takers[i], path)
        }),
    decreases schedule.len(),
{
    let start = Scene { lock: LockFile::Absent, takers: pids.map_values(|p: u32| ready(p)) };
    let winner = schedule[0];
    assert(0 <= winner < pids.len());
    let front = schedule.drop_last();
    let before = all_acted(start, front, runs, path);
    let i = schedule.last();
    assert(schedule[schedule.len() - 1] == i);
    if schedule.len() == 1 {
        assert(before == start);
        assert(start.takers[winner] == ready(pids[winner]));
    } else {
        assert forall|k: int| 0 <= k < front.len() implies 0 <= #[trigger] front[k]
            < pids.len() by {
            assert(front[k] == schedule[k]);
        }
        law_one_taker_wins(pids, front, runs, path);
        assert(front[0] == winner);
        law_locks_name_their_writer(pids[winner]);
        assert(runs(pids[winner]));
        assert(is_held_in(before.lock, runs));
        if i != winner {
            assert(is_kept_out(before.takers[i], path));
        }
    }
}

/// The lock is tried for five times, and what is told names it.
pub proof fn law_lock_failures_are_told(tries: nat, path: Seq<char>, e: String)
    ensures
        followed(tries, path, LockReply::Exists { held: true }) == LockStep::Fail(
            "restore already running (remove "@ + path + " to override)"@,
        ),
        followed(tries, path, LockReply::Exists { held: false }) == (if tries < 5 {
            LockStep::ClearAndLink
        } else {
            LockStep::ClearAndFail("could not acquire lock at "@ + path)
        }),
        followed(tries, path, LockReply::Failed(e)) == LockStep::Fail(e@),
{
}

/// A lock that cannot be read, or that holds nothing but blanks, names no process.
pub proof fn law_empty_locks_name_none(contents: Seq<char>)
    requires
        text::is_blank(contents),
    ensures
        holder_of(None) is None,
        holder_of(Some(contents)) is None,
{
    lemma_blank_start(contents);
}

proof fn lemma_blank_start(s: Seq<char>)
    requires
        text::is_blank(s),
    ensures
        text::trimmed_start(s).len() == 0,
    decreases s.len(),
{
    if s.len() > 0 {
        lemma_blank_start(s.drop_first());
    }
}

/// The files that two processes publish as the lock differ, and what a process writes
/// into its own names it.
pub proof fn law_processes_have_their_own_files(
    a: u32,
    b: u32,
    of_a: String,
    of_b: String,
    written: String,
)
    requires
        call_ensures(temp_extension, (a,), of_a),
        call_ensures(temp_extension, (b,), of_b),
        call_ensures(lock_contents, (a,), written),
        a != b,
    ensures
        of_a@ != of_b@,
        text::begins(of_a@, "lock.tmp."@),
        holder_of(Some(written@)) == Some(a),
{
    law_locks_name_their_writer(a);
    text::law_numbers_are_told_apart(a as int, b as int);
    let head = "lock.tmp."@;
    assert(of_a@.skip(head.len() as int) =~= text::decimal(a as nat));
    assert(of_b@.skip(head.len() as int) =~= text::decimal(b as nat));
}

/// A lock is held where it names a process and that process runs, and only there.
pub proof fn law_locks_are_held_by_running_processes(
    contents: &str,
    runs: bool,
    pid: u32,
    named: bool,
    unread: bool,
)
    requires
        call_ensures(LockGuard::is_held, (Some(contents), runs), named),
        call_ensures(LockGuard::is_held, (None, runs), unread),
        contents@ == text::decimal(pid as nat),
    ensures
        named <==> runs,
        !unread,
{
    law_locks_name_their_writer(pid);
}

} // verus!
