//! What passes between the program and Hyprland: clients, monitors, dispatches
//! and events.

use std::collections::{HashMap, VecDeque};

use vstd::prelude::*;
use vstd::string::*;

use crate::collections::TextSet;
use crate::order::{self, Ranked, Sortable};
use crate::text;

verus! {

broadcast use vstd::std_specs::hash::group_hash_axioms;

// --------------------------------------------------------------------- clients

/// A window.
#[derive(Debug, Clone, PartialEq)]
pub struct HyprClient {
    pub address: String,
    pub initial_class: String,
    pub x: i32,
    pub width: i32,
    pub workspace_id: i32,
    pub pid: i32,
    pub monitor: i32,
    pub floating: bool,
    pub mapped: bool,
}

/// A window as Hyprland describes it.
#[derive(Debug, Clone, PartialEq)]
pub struct RawClient {
    pub address: String,
    pub mapped: bool,
    pub floating: bool,
    pub workspace: RawWorkspaceRef,
    pub at: [i32; 2],
    pub size: [i32; 2],
    pub initial_class: String,
    pub pid: i32,
    pub monitor: i32,
}

/// A reference to a workspace as Hyprland writes it.
#[derive(Debug, Clone, Copy, PartialEq)]
pub struct RawWorkspaceRef {
    pub id: i32,
}

/// A monitor as Hyprland describes it.
#[derive(Debug, Clone, Copy, PartialEq)]
pub struct RawMonitor {
    pub id: i32,
    pub width: i32,
}

/// The active workspace as Hyprland describes it.
#[derive(Debug, Clone, Copy, PartialEq)]
pub struct RawActiveWorkspace {
    pub id: i32,
}

/// The window that a description is of.
pub open spec fn client_of(c: RawClient) -> HyprClient {
    HyprClient {
        address: c.address,
        initial_class: c.initial_class,
        x: c.at@[0],
        width: c.size@[0],
        workspace_id: c.workspace.id,
        pid: c.pid,
        monitor: c.monitor,
        floating: c.floating,
        mapped: c.mapped,
    }
}

/// The windows that Hyprland describes, in its order.
pub fn get_clients(raw: Vec<RawClient>) -> (r: Vec<HyprClient>)
    ensures
        r@ == raw@.map_values(|c: RawClient| client_of(c)),
        forall|i: int|
            0 <= i < raw@.len() ==> {
                &&& (#[trigger] r@[i]).x == raw@[i].at@[0]
                &&& r@[i].width == raw@[i].size@[0]
                &&& r@[i].workspace_id == raw@[i].workspace.id
                &&& r@[i].address == raw@[i].address
                &&& r@[i].initial_class == raw@[i].initial_class
            },
{
    let ghost all = raw@;
    let mut raw = raw;
    let mut out: Vec<HyprClient> = Vec::new();
    let ghost mut i: int = 0;
    assert(all.skip(0) =~= all);
    while raw.len() > 0
        invariant
            0 <= i <= all.len(),
            raw@ == all.skip(i),
            out@ == all.take(i).map_values(|c: RawClient| client_of(c)),
        decreases raw@.len(),
    {
        let c: RawClient = raw.remove(0);
        proof {
            assert(all.skip(i).remove(0) =~= all.skip(i + 1));
            i = i + 1;
        }
        out.push(
            HyprClient {
                address: c.address,
                initial_class: c.initial_class,
                x: c.at[0],
                width: c.size[0],
                workspace_id: c.workspace.id,
                pid: c.pid,
                monitor: c.monitor,
                floating: c.floating,
                mapped: c.mapped,
            },
        );
        assert(out@ =~= all.take(i).map_values(|c: RawClient| client_of(c)));
    }
    assert(all.take(all.len() as int) =~= all);
    out
}

/// The monitor width to go by where none is known.
pub const FALLBACK_MONITOR_WIDTH: i32 = 1920;

/// The width of each monitor. Where an id occurs twice, the later one counts.
pub open spec fn monitor_widths(raw: Seq<RawMonitor>) -> Map<i32, i32>
    decreases raw.len(),
{
    if raw.len() == 0 {
        Map::empty()
    } else {
        monitor_widths(raw.drop_last()).insert(raw.last().id, raw.last().width)
    }
}

/// The width of each monitor, by its id.
pub fn get_monitor_widths(raw: &Vec<RawMonitor>) -> (r: HashMap<i32, i32>)
    ensures
        r@ == monitor_widths(raw@),
{
    let mut out: HashMap<i32, i32> = HashMap::new();
    let mut i: usize = 0;
    while i < raw.len()
        invariant
            0 <= i <= raw@.len(),
            out@ == monitor_widths(raw@.take(i as int)),
        decreases raw@.len() - i,
    {
        proof {
            assert(raw@.take(i as int + 1).drop_last() =~= raw@.take(i as int));
            assert(raw@.take(i as int + 1).last() == raw@[i as int]);
        }
        out.insert(raw[i].id, raw[i].width);
        i += 1;
    }
    assert(raw@.take(raw@.len() as int) =~= raw@);
    out
}

/// The id of the active workspace.
pub fn get_active_workspace_id(raw: RawActiveWorkspace) -> (r: i32)
    ensures
        r == raw.id,
{
    raw.id
}

impl Ranked for HyprClient {
    open spec fn rank(&self) -> int {
        self.x as int
    }
}

impl Sortable for HyprClient {
    fn ranks_after(&self, other: &Self) -> (r: bool) {
        self.x > other.x
    }
}

/// The test whether a window is tiled on the workspace `ws_id`.
pub open spec fn tiled_on(ws_id: i32) -> spec_fn(HyprClient) -> bool {
    |c: HyprClient| c.workspace_id == ws_id && !c.floating && c.mapped
}

/// The tiled windows of a workspace, from left to right.
pub fn get_workspace_clients_sorted(clients: Vec<HyprClient>, ws_id: i32) -> (r: Vec<HyprClient>)
    ensures
        r@ == order::sorted(clients@.filter(tiled_on(ws_id))),
        order::stably_sorted(clients@.filter(tiled_on(ws_id)), r@),
{
    let ghost all = clients@;
    let mut clients = clients;
    let mut kept: Vec<HyprClient> = Vec::new();
    let ghost mut i: int = 0;
    assert(all.skip(0) =~= all);
    assert(all.take(0).filter(tiled_on(ws_id)) =~= Seq::<HyprClient>::empty()) by {
        reveal_with_fuel(Seq::filter, 1);
    }
    while clients.len() > 0
        invariant
            0 <= i <= all.len(),
            clients@ == all.skip(i),
            kept@ == all.take(i).filter(tiled_on(ws_id)),
        decreases clients@.len(),
    {
        let c: HyprClient = clients.remove(0);
        proof {
            assert(all.skip(i).remove(0) =~= all.skip(i + 1));
            assert(all.take(i + 1) =~= all.take(i).push(c));
            all.take(i).lemma_filter_push(c, tiled_on(ws_id));
            i = i + 1;
        }
        if c.workspace_id == ws_id && !c.floating && c.mapped {
            kept.push(c);
        }
    }
    assert(all.take(all.len() as int) =~= all);
    order::stable_sort(&mut kept);
    kept
}

// ------------------------------------------------------------------ dispatches

/// The dispatch that focuses a workspace.
pub fn focus_workspace(id: i32) -> (r: String)
    ensures
        r@ == "hl.dsp.focus({workspace = "@ + text::signed_decimal(id as int) + "})"@,
{
    text::join3("hl.dsp.focus({workspace = ", text::i32_text(id).as_str(), "})")
}

/// The dispatch that focuses a window.
pub fn focus_window(address: &str) -> (r: String)
    ensures
        r@ == "hl.dsp.focus({ window = \"address:"@ + address@ + "\" })"@,
{
    text::join3("hl.dsp.focus({ window = \"address:", address, "\" })")
}

/// The dispatch that moves a window to a workspace without following it.
pub fn move_to_workspace_silent(address: &str, workspace_id: i32) -> (r: String)
    ensures
        r@ == "hl.dsp.window.move({workspace = "@ + text::signed_decimal(workspace_id as int)
            + ", follow = false, window = \"address:"@ + address@ + "\"})"@,
{
    let mut s: String = text::join3(
        "hl.dsp.window.move({workspace = ",
        text::i32_text(workspace_id).as_str(),
        ", follow = false, window = \"address:",
    );
    s.append(address);
    s.append("\"})");
    s
}

/// The dispatch that swaps the focused column with the one to its left.
pub fn swapcol_left() -> (r: String)
    ensures
        r@ == "hl.dsp.layout(\"swapcol l\")"@,
{
    "hl.dsp.layout(\"swapcol l\")".to_owned()
}

/// The dispatch that resizes the focused column. `ratio` is the fraction of the
/// monitor's width, written with three decimals.
pub fn colresize(ratio: &str) -> (r: String)
    ensures
        r@ == "hl.dsp.layout(\"colresize "@ + ratio@ + "\")"@,
{
    text::join3("hl.dsp.layout(\"colresize ", ratio, "\")")
}

// -------------------------------------------------------------- the event socket

/// Hyprland's event socket below the directory `base`.
pub open spec fn socket_below(base: Seq<char>, signature: Seq<char>) -> Seq<char> {
    base + "/hypr/"@ + signature + "/.socket2.sock"@
}

/// The event socket in the user's runtime directory.
pub fn runtime_socket(runtime_dir: &str, signature: &str) -> (r: String)
    ensures
        r@ == socket_below(runtime_dir@, signature@),
{
    let mut s: String = text::join3(runtime_dir, "/hypr/", signature);
    s.append("/.socket2.sock");
    s
}

/// The path of the event socket, or `None` where the environment names no
/// instance of Hyprland.
///
/// `in_runtime_dir` tells whether the socket of `runtime_socket` is there. Where
/// it is not, the socket is looked for in the place that older versions use.
pub fn socket2_path(
    signature: Option<String>,
    runtime_dir: Option<String>,
    in_runtime_dir: bool,
) -> (r: Option<String>)
    ensures
        text::opt_text(r) == (match (text::opt_text(signature), text::opt_text(runtime_dir)) {
            (None, _) => None,
            (Some(sig), Some(dir)) if in_runtime_dir => Some(socket_below(dir, sig)),
            (Some(sig), _) => Some(socket_below("/tmp"@, sig)),
        }),
{
    match signature {
        None => None,
        Some(sig) => match runtime_dir {
            Some(dir) if in_runtime_dir => Some(runtime_socket(dir.as_str(), sig.as_str())),
            _ => Some(runtime_socket("/tmp", sig.as_str())),
        },
    }
}

// ---------------------------------------------------------------------- events

/// Something that Hyprland reports.
#[derive(Debug, Clone, PartialEq)]
pub enum HyprEvent {
    WindowOpen { address: String, class: String },
    WindowClose { address: String },
}

/// An event, as values.
pub enum EventValue {
    Open { address: Seq<char>, class: Seq<char> },
    Close { address: Seq<char> },
}

impl View for HyprEvent {
    type V = EventValue;

    open spec fn view(&self) -> EventValue {
        match self {
            HyprEvent::WindowOpen { address, class } => EventValue::Open {
                address: address@,
                class: class@,
            },
            HyprEvent::WindowClose { address } => EventValue::Close { address: address@ },
        }
    }
}

/// The event that a line of the event socket reports, if it is one that matters
/// here. The fields of an opened window are its address, its workspace, its class
/// and its title; the title may hold commas.
pub open spec fn event_of(line: Seq<char>) -> Option<EventValue> {
    match text::after_prefix(line, "openwindow>>"@) {
        Some(data) => {
            let fields = text::split(data, ',');
            if fields.len() >= 3 {
                Some(EventValue::Open { address: fields[0], class: fields[2] })
            } else {
                None
            }
        },
        None => match text::after_prefix(line, "closewindow>>"@) {
            Some(address) => Some(EventValue::Close { address }),
            None => None,
        },
    }
}

/// Reads a line of the event socket.
pub fn parse_event_line(line: &str) -> (r: Option<HyprEvent>)
    ensures
        (match r {
            Some(e) => Some(e@),
            None => None,
        }) == event_of(line@),
{
    if let Some(data) = text::strip_prefix(line, "openwindow>>") {
        let fields: Vec<String> = text::split_on(data.as_str(), ',');
        assert(text::texts(fields@).len() == fields@.len());
        if fields.len() >= 3 {
            assert(text::texts(fields@)[0] == fields@[0]@);
            assert(text::texts(fields@)[2] == fields@[2]@);
            Some(HyprEvent::WindowOpen { address: fields[0].clone(), class: fields[2].clone() })
        } else {
            None
        }
    } else {
        match text::strip_prefix(line, "closewindow>>") {
            Some(address) => Some(HyprEvent::WindowClose { address }),
            None => None,
        }
    }
}

// ---------------------------------------------------------- waiting for windows

/// How long the number of open windows has to stay at the target, in
/// nanoseconds. Some apps open a splash window first and close it once the real
/// one is there.
pub const STABILITY_WINDOW: u64 = 500_000_000;

/// A process that ends this soon (in nanoseconds) has handed over to another
/// instance of the app.
pub const QUICK_EXIT: u64 = 1_500_000_000;

/// How long a window that was launched is waited for, in nanoseconds.
pub const WINDOW_WAIT: u64 = 20_000_000_000;

/// When a wait for windows that begins at `now` ends at the latest.
pub open spec fn deadline_from(now: u64) -> u64 {
    if now + WINDOW_WAIT <= u64::MAX {
        (now + WINDOW_WAIT) as u64
    } else {
        u64::MAX
    }
}

/// When a wait for windows that begins at `now` ends at the latest: after
/// `WINDOW_WAIT`, or at the end of the clock.
pub fn wait_deadline(now: u64) -> (r: u64)
    ensures
        r == deadline_from(now),
{
    if now <= u64::MAX - WINDOW_WAIT {
        now + WINDOW_WAIT
    } else {
        u64::MAX
    }
}

/// How long to wait after such a handoff, in nanoseconds.
pub const HANDOFF_WAIT: u64 = 8_000_000_000;

/// The longest time to wait for one event, in nanoseconds.
pub const EVENT_WAIT: u64 = 50_000_000;

/// A wait for windows of one class, as values. Times are nanoseconds on a clock
/// of the caller's.
pub struct WaitState {
    pub class: Seq<char>,
    pub target: nat,
    /// The windows of the class that have been seen to open and not to close.
    pub open: Set<Seq<char>>,
    /// Since when there are as many of them as wanted.
    pub stable_since: Option<u64>,
    /// Whether the process is known to have ended, or there is none.
    pub child_done: bool,
    pub deadline: u64,
    pub started: u64,
    /// How long to wait for the next event.
    pub timeout: u64,
}

/// A wait for windows of one class to open.
#[derive(Debug)]
pub struct Wait {
    class: String,
    target: usize,
    open: TextSet,
    stable_since: Option<u64>,
    child_done: bool,
    deadline: u64,
    started: u64,
    timeout: u64,
}

impl View for Wait {
    type V = WaitState;

    closed spec fn view(&self) -> WaitState {
        WaitState {
            class: self.class@,
            target: self.target as nat,
            open: self.open@,
            stable_since: self.stable_since,
            child_done: self.child_done,
            deadline: self.deadline,
            started: self.started,
            timeout: self.timeout,
        }
    }
}

/// What to do next in a wait.
#[derive(Debug, Clone, Copy, PartialEq)]
pub enum WaitAction {
    /// Stop: there are this many windows.
    Done(usize),
    /// Ask again at once.
    Again,
    /// Find out whether the process has ended, then receive.
    CheckChild,
    /// Receive an event, for this long at most.
    Receive(u64),
}

/// What receiving an event came to.
#[derive(Debug, Clone, PartialEq)]
pub enum Received {
    Event(HyprEvent),
    /// No event came in time.
    TimedOut,
    /// There will be no more events.
    Closed,
}

/// How long it is from `then` to `now`.
pub open spec fn elapsed(then: u64, now: u64) -> u64 {
    if now >= then {
        (now - then) as u64
    } else {
        0
    }
}

/// Since when the number of windows has been at the target, now that `count` of
/// them are open: it starts to count when the target is reached, and ends when
/// there are more or fewer.
pub open spec fn stable_from(count: nat, target: nat, since: Option<u64>, now: u64) -> Option<
    u64,
> {
    if count != target {
        None
    } else if since is Some {
        since
    } else {
        Some(now)
    }
}

/// `w` with other windows open.
pub open spec fn with_open(w: WaitState, open: Set<Seq<char>>, now: u64) -> WaitState {
    WaitState { open, stable_since: stable_from(open.len(), w.target, w.stable_since, now), ..w }
}

/// Whether the number of windows has been at the target for long enough.
pub open spec fn is_settled(w: WaitState, now: u64) -> bool {
    w.stable_since matches Some(since) && elapsed(since, now) >= STABILITY_WINDOW
}

/// Whether an event opens a window of `class`.
pub open spec fn opens(e: EventValue, class: Seq<char>) -> bool {
    e matches EventValue::Open { class: c, .. } && c == class
}

/// The events of a buffer.
pub open spec fn event_values(buffer: Seq<HyprEvent>) -> Seq<EventValue> {
    buffer.map_values(|e: HyprEvent| e@)
}

/// Whether event `i` of the buffer is the first that opens a window of `class`.
pub open spec fn first_open(buffer: Seq<EventValue>, class: Seq<char>, i: int) -> bool {
    &&& 0 <= i < buffer.len()
    &&& opens(buffer[i], class)
    &&& forall|j: int| 0 <= j < i ==> !opens(#[trigger] buffer[j], class)
}

/// The outcome of a step of a wait: the buffer and the wait afterwards, and what
/// to do next.
pub struct Polled {
    pub buffer: Seq<EventValue>,
    pub wait: WaitState,
    pub action: WaitAction,
}

/// What comes next in the wait `w` at `now`: it ends at its deadline or when it
/// has settled; else it takes up an event that was put aside earlier; else it
/// waits for one.
pub open spec fn polled(buffer: Seq<EventValue>, w: WaitState, now: u64) -> Polled {
    if now >= w.deadline || is_settled(w, now) {
        Polled { buffer, wait: w, action: WaitAction::Done(w.open.len() as usize) }
    } else if exists|i: int| first_open(buffer, w.class, i) {
        let i = choose|i: int| first_open(buffer, w.class, i);
        Polled {
            buffer: buffer.remove(i),
            wait: with_open(w, w.open.insert(buffer[i]->Open_address), now),
            action: WaitAction::Again,
        }
    } else {
        let left = (w.deadline - now) as u64;
        let timeout = if left < EVENT_WAIT {
            left
        } else {
            EVENT_WAIT
        };
        Polled {
            buffer,
            wait: WaitState { timeout, ..w },
            action: if w.child_done {
                WaitAction::Receive(timeout)
            } else {
                WaitAction::CheckChild
            },
        }
    }
}

/// The wait after an event: a window of the class that opens counts, one that
/// closes counts no more and starts the settling anew.
pub open spec fn after_event(w: WaitState, e: EventValue, now: u64) -> WaitState {
    match e {
        EventValue::Open { address, class } => if class == w.class {
            with_open(w, w.open.insert(address), now)
        } else {
            w
        },
        EventValue::Close { address } => if w.open.contains(address) {
            with_open(WaitState { stable_since: None, ..w }, w.open.remove(address), now)
        } else {
            w
        },
    }
}

/// The events put aside after an event: windows of other classes that open are
/// kept for the waits that want them.
pub open spec fn after_event_buffer(
    buffer: Seq<EventValue>,
    w: WaitState,
    e: EventValue,
) -> Seq<EventValue> {
    if e is Open && !opens(e, w.class) {
        buffer.push(e)
    } else {
        buffer
    }
}

/// The events of Hyprland that no wait has used yet.
#[derive(Debug)]
pub struct EventStream {
    buffer: VecDeque<HyprEvent>,
}

impl View for EventStream {
    type V = Seq<EventValue>;

    closed spec fn view(&self) -> Seq<EventValue> {
        event_values(self.buffer@)
    }
}

impl EventStream {
    /// A stream with nothing put aside.
    pub fn new() -> (r: Self)
        ensures
            r@ == Seq::<EventValue>::empty(),
    {
        let r = EventStream { buffer: VecDeque::new() };
        assert(r@ =~= Seq::<EventValue>::empty());
        r
    }

    /// Begins to wait until there are exactly `target_count` windows of `class`
    /// and their number has settled, or until `deadline`.
    ///
    /// Both opening and closing windows are counted, so that an app which opens a
    /// splash window first is waited for until its real window is there.
    pub fn wait_for_count(
        &self,
        class: &str,
        target_count: usize,
        deadline: u64,
        has_child: bool,
        now: u64,
    ) -> (r: Wait)
        ensures
            r@ == (WaitState {
                class: class@,
                target: target_count as nat,
                open: Set::empty(),
                stable_since: None,
                child_done: !has_child,
                deadline,
                started: now,
                timeout: 0,
            }),
    {
        Wait {
            class: class.to_owned(),
            target: target_count,
            open: TextSet::new(),
            stable_since: None,
            child_done: !has_child,
            deadline,
            started: now,
            timeout: 0,
        }
    }

    /// What comes next in a wait.
    pub fn poll(&mut self, wait: &mut Wait, now: u64) -> (r: WaitAction)
        ensures
            (Polled { buffer: final(self)@, wait: final(wait)@, action: r }) == polled(
                old(self)@,
                old(wait)@,
                now,
            ),
    {
        let ghost buffer = self@;
        let ghost w = wait@;
        let settled: bool = match wait.stable_since {
            Some(since) => (if now >= since {
                now - since
            } else {
                0
            }) >= STABILITY_WINDOW,
            None => false,
        };
        if now >= wait.deadline || settled {
            return WaitAction::Done(wait.open.len());
        }
        let mut i: usize = 0;
        while i < self.buffer.len()
            invariant
                0 <= i <= self.buffer@.len(),
                buffer == self@,
                self@ == old(self)@,
                wait@ == w,
                w == old(wait)@,
                now < w.deadline,
                !is_settled(w, now),
                forall|j: int| 0 <= j < i ==> !opens(#[trigger] buffer[j], w.class),
            decreases self.buffer@.len() - i,
        {
            let wanted: bool = match &self.buffer[i] {
                HyprEvent::WindowOpen { class, .. } => text::same(
                    class.as_str(),
                    wait.class.as_str(),
                ),
                HyprEvent::WindowClose { .. } => false,
            };
            assert(buffer[i as int] == self.buffer@[i as int]@);
            if wanted {
                proof {
                    assert(first_open(buffer, w.class, i as int));
                    let c = choose|c: int| first_open(buffer, w.class, c);
                    assert(c == i) by {
                        if c < i {
                            assert(!opens(buffer[c], w.class));
                        } else if c > i {
                            assert(!opens(buffer[i as int], w.class));
                        }
                    }
                }
                let taken: Option<HyprEvent> = self.buffer.remove(i);
                assert(self@ =~= buffer.remove(i as int));
                if let Some(HyprEvent::WindowOpen { address, .. }) = taken {
                    let _ = wait.open.insert(address);
                    Self::update_stable(&wait.open, wait.target, &mut wait.stable_since, now);
                }
                return WaitAction::Again;
            }
            i += 1;
        }
        assert forall|c: int| !first_open(buffer, w.class, c) by {
            if 0 <= c < buffer.len() {
                assert(!opens(buffer[c], w.class));
            }
        }
        let left: u64 = wait.deadline - now;
        wait.timeout = if left < EVENT_WAIT {
            left
        } else {
            EVENT_WAIT
        };
        if wait.child_done {
            WaitAction::Receive(wait.timeout)
        } else {
            WaitAction::CheckChild
        }
    }

    /// Takes up whether the process of a wait has ended, and returns what to tell
    /// the user if that changes the wait.
    ///
    /// A process that ends at once has handed over to another instance, which may
    /// take its time: the wait then gets a new deadline.
    pub fn child_polled(wait: &mut Wait, exited: bool, now: u64) -> (r: Option<String>)
        requires
            now + HANDOFF_WAIT <= u64::MAX,
        ensures
            final(wait)@ == after_child(old(wait)@, exited, now),
            text::opt_text(r) == (if exited && !old(wait)@.child_done && elapsed(
                old(wait)@.started,
                now,
            ) < QUICK_EXIT {
                Some(handoff_text(old(wait)@.class, elapsed(old(wait)@.started, now)))
            } else {
                None
            }),
    {
        if !exited || wait.child_done {
            return None;
        }
        wait.child_done = true;
        let took: u64 = if now >= wait.started {
            now - wait.started
        } else {
            0
        };
        if took < QUICK_EXIT {
            wait.deadline = now + HANDOFF_WAIT;
            let mut s: String = text::join3("  ", wait.class.as_str(), ": quick exit (");
            s.append(text::u64_text(took / 1_000_000).as_str());
            s.append("ms) — single-instance handoff, extending wait to 8s");
            return Some(s);
        }
        None
    }

    /// How long to wait for the next event.
    pub fn receive_timeout(wait: &Wait) -> (r: u64)
        ensures
            r == wait@.timeout,
    {
        wait.timeout
    }

    /// Takes up what receiving an event came to. The wait is over, with the
    /// number that is returned, where there will be no more events.
    pub fn receive(&mut self, wait: &mut Wait, received: Received, now: u64) -> (r: Option<usize>)
        ensures
            match received {
                Received::Event(e) => {
                    &&& r is None
                    &&& final(wait)@ == after_event(old(wait)@, e@, now)
                    &&& final(self)@ == after_event_buffer(old(self)@, old(wait)@, e@)
                },
                Received::TimedOut => {
                    &&& r is None
                    &&& final(wait)@ == old(wait)@
                    &&& final(self)@ == old(self)@
                },
                Received::Closed => {
                    &&& r matches Some(n) && n == old(wait)@.open.len()
                    &&& final(wait)@ == old(wait)@
                    &&& final(self)@ == old(self)@
                },
            },
    {
        match received {
            Received::Event(HyprEvent::WindowOpen { address, class }) => {
                if text::same(class.as_str(), wait.class.as_str()) {
                    let _ = wait.open.insert(address);
                    Self::update_stable(&wait.open, wait.target, &mut wait.stable_since, now);
                } else {
                    let e = HyprEvent::WindowOpen { address, class };
                    let ghost v = e@;
                    self.buffer.push_back(e);
                    assert(self@ =~= old(self)@.push(v));
                }
                None
            },
            Received::Event(HyprEvent::WindowClose { address }) => {
                if wait.open.remove(address.as_str()) {
                    wait.stable_since = None;
                    Self::update_stable(&wait.open, wait.target, &mut wait.stable_since, now);
                } else {
                    assert(wait.open@ =~= old(wait)@.open);
                }
                None
            },
            Received::TimedOut => None,
            Received::Closed => Some(wait.open.len()),
        }
    }

    /// Takes up that `open` are the windows that are open now: their number has
    /// to be exactly the target for it to settle.
    pub fn update_stable(
        open: &TextSet,
        target: usize,
        stable_since: &mut Option<u64>,
        now: u64,
    )
        ensures
            *final(stable_since) == stable_from(
                open@.len(),
                target as nat,
                *old(stable_since),
                now,
            ),
    {
        if open.len() == target {
            if stable_since.is_none() {
                *stable_since = Some(now);
            }
        } else {
            *stable_since = None;
        }
    }
}

/// The wait after its process was looked at.
pub open spec fn after_child(w: WaitState, exited: bool, now: u64) -> WaitState {
    if !exited || w.child_done {
        w
    } else if elapsed(w.started, now) < QUICK_EXIT {
        WaitState { child_done: true, deadline: (now + HANDOFF_WAIT) as u64, ..w }
    } else {
        WaitState { child_done: true, ..w }
    }
}

/// What the user is told of a process that handed over after `took` nanoseconds.
pub open spec fn handoff_text(class: Seq<char>, took: u64) -> Seq<char> {
    "  "@ + class + ": quick exit ("@ + text::decimal((took / 1_000_000) as nat)
        + "ms) — single-instance handoff, extending wait to 8s"@
}

// ------------------------------------------------------------------------- laws

/// Commas in the title of a window leave its address and its class alone.
pub proof fn law_titles_may_hold_commas(
    address: Seq<char>,
    workspace: Seq<char>,
    class: Seq<char>,
    title: Seq<char>,
)
    requires
        !address.contains(','),
        !workspace.contains(','),
        !class.contains(','),
    ensures
        event_of(
            "openwindow>>"@ + (address + seq![','] + (workspace + seq![','] + (class + seq![',']
                + title))),
        ) == Some(EventValue::Open { address, class }),
{
    let tail = class + seq![','] + title;
    let mid = workspace + seq![','] + tail;
    let data = address + seq![','] + mid;
    let line = "openwindow>>"@ + data;
    assert(line.subrange(0, "openwindow>>"@.len() as int) =~= "openwindow>>"@);
    assert(line.skip("openwindow>>"@.len() as int) =~= data);
    text::law_split_around_separator(address, mid, ',');
    text::law_split_around_separator(workspace, tail, ',');
    text::law_split_around_separator(class, title, ',');
    text::law_split_without_separator(address, ',');
    text::law_split_without_separator(workspace, ',');
    text::law_split_without_separator(class, ',');
    let rest = text::split(title, ',');
    text::law_split_then_join(title, ',');
    assert(text::split(data, ',') =~= seq![address, workspace, class] + rest);
}

/// Whether the number of windows is counted as settling only while it is at the
/// target.
pub open spec fn counts_at_target_only(w: WaitState) -> bool {
    w.stable_since is Some ==> w.open.len() == w.target
}

/// The number of windows settles only while it is exactly at the target: that
/// holds from the beginning of a wait and through all its steps.
pub proof fn law_settling_is_at_the_target(
    buffer: Seq<EventValue>,
    w: WaitState,
    e: EventValue,
    exited: bool,
    now: u64,
)
    requires
        counts_at_target_only(w),
    ensures
        counts_at_target_only(polled(buffer, w, now).wait),
        counts_at_target_only(after_event(w, e, now)),
        counts_at_target_only(after_child(w, exited, now)),
{
}

/// A process that ends at once gets eight seconds from then for its window, as it
/// has handed over to another instance. One that ends later changes nothing.
pub proof fn law_quick_exits_get_more_time(w: WaitState, now: u64)
    requires
        !w.child_done,
        now + HANDOFF_WAIT <= u64::MAX,
    ensures
        elapsed(w.started, now) < QUICK_EXIT ==> after_child(w, true, now).deadline == now
            + HANDOFF_WAIT,
        elapsed(w.started, now) >= QUICK_EXIT ==> after_child(w, true, now).deadline == w.deadline,
        after_child(w, false, now) == w,
{
}

/// A wait ends once its deadline has come, with the windows that are open then.
pub proof fn law_waits_end_at_their_deadline(buffer: Seq<EventValue>, w: WaitState, now: u64)
    requires
        now >= w.deadline,
    ensures
        polled(buffer, w, now).action == WaitAction::Done(w.open.len() as usize),
{
}

/// A wait that ends before its deadline ends with as many windows as it was for.
pub proof fn law_early_end_means_target(buffer: Seq<EventValue>, w: WaitState, now: u64)
    requires
        counts_at_target_only(w),
        w.open.len() <= usize::MAX,
        now < w.deadline,
    ensures
        polled(buffer, w, now).action matches WaitAction::Done(n) ==> n == w.target,
{
}

/// The wait after a number of events, each with the time at which it came.
pub open spec fn after_events(w: WaitState, events: Seq<(EventValue, u64)>) -> WaitState
    decreases events.len(),
{
    if events.len() == 0 {
        w
    } else {
        after_event(after_events(w, events.drop_last()), events.last().0, events.last().1)
    }
}

/// Whether the window `address` closes after the first `n` events.
pub open spec fn closes_from(
    events: Seq<(EventValue, u64)>,
    n: int,
    address: Seq<char>,
) -> bool {
    exists|i: int| n <= i < events.len() && (#[trigger] events[i]).0 == EventValue::Close { address }
}

/// Whether a window of `class` opens as `address` and does not close after that.
pub open spec fn opens_and_stays(
    events: Seq<(EventValue, u64)>,
    class: Seq<char>,
    address: Seq<char>,
) -> bool {
    exists|i: int|
        0 <= i < events.len() && (#[trigger] events[i]).0 == EventValue::Open { address, class }
            && !closes_from(events, i, address)
}

/// The windows that a wait counts are those of its class that opened and did not
/// close since, whatever came between.
pub proof fn law_open_windows_are_counted(
    w: WaitState,
    events: Seq<(EventValue, u64)>,
    address: Seq<char>,
)
    requires
        w.open == Set::<Seq<char>>::empty(),
    ensures
        after_events(w, events).class == w.class,
        after_events(w, events).open.contains(address) <==> opens_and_stays(
            events,
            w.class,
            address,
        ),
    decreases events.len(),
{
    if events.len() > 0 {
        let front = events.drop_last();
        let last = events.last().0;
        law_open_windows_are_counted(w, front, address);
        let opened = EventValue::Open { address, class: w.class };
        let closed = EventValue::Close { address };
        let n = events.len() - 1;
        if opens_and_stays(front, w.class, address) && last != closed {
            let i = choose|i: int|
                0 <= i < front.len() && (#[trigger] front[i]).0 == opened && !closes_from(
                    front,
                    i,
                    address,
                );
            assert(events[i] == front[i]);
            assert(!closes_from(events, i, address)) by {
                if closes_from(events, i, address) {
                    let j = choose|j: int|
                        i <= j < events.len() && (#[trigger] events[j]).0 == closed;
                    assert(front[j] == events[j]);
                }
            }
        }
        if last == opened {
            assert(events[n].0 == opened);
            assert(!closes_from(events, n, address));
        }
        if opens_and_stays(events, w.class, address) {
            let i = choose|i: int|
                0 <= i < events.len() && (#[trigger] events[i]).0 == opened && !closes_from(
                    events,
                    i,
                    address,
                );
            if i < n {
                assert(front[i] == events[i]);
                assert(!closes_from(front, i, address)) by {
                    if closes_from(front, i, address) {
                        let j = choose|j: int|
                            i <= j < front.len() && (#[trigger] front[j]).0 == closed;
                        assert(events[j] == front[j]);
                    }
                }
            }
        }
        if last == closed {
            assert(events[n].0 == closed);
        }
    }
}

/// An event that opens a window of another class is put aside, behind those put
/// aside before it, and a later wait for that class takes it up.
pub proof fn law_other_windows_are_put_aside(
    buffer: Seq<EventValue>,
    w: WaitState,
    address: Seq<char>,
    class: Seq<char>,
)
    requires
        class != w.class,
    ensures
        ({
            let kept = after_event_buffer(buffer, w, EventValue::Open { address, class });
            &&& kept == buffer.push(EventValue::Open { address, class })
            &&& exists|i: int| first_open(kept, class, i)
        }),
{
    let kept = buffer.push(EventValue::Open { address, class });
    lemma_some_first_open(kept, class, kept.len() - 1);
}

proof fn lemma_some_first_open(buffer: Seq<EventValue>, class: Seq<char>, i: int)
    requires
        0 <= i < buffer.len(),
        opens(buffer[i], class),
    ensures
        exists|j: int| first_open(buffer, class, j),
    decreases i,
{
    if exists|j: int| 0 <= j < i && opens(#[trigger] buffer[j], class) {
        let j = choose|j: int| 0 <= j < i && opens(#[trigger] buffer[j], class);
        lemma_some_first_open(buffer, class, j);
    } else {
        assert(first_open(buffer, class, i));
    }
}

/// A window is read as it is described: at its own place, as wide as it is, on its
/// workspace and monitor, and as floating or mapped as it is.
pub proof fn law_windows_are_read_as_described(c: RawClient)
    ensures
        ({
            let r = client_of(c);
            &&& r.address@ == c.address@
            &&& r.initial_class@ == c.initial_class@
            &&& r.x == c.at@[0]
            &&& r.width == c.size@[0]
            &&& r.workspace_id == c.workspace.id
            &&& r.pid == c.pid
            &&& r.monitor == c.monitor
            &&& (r.floating <==> c.floating)
            &&& (r.mapped <==> c.mapped)
        }),
{
}

/// Reading keeps the order from left to right, also left of the screen: one window
/// is left of another exactly where it is described as such.
pub proof fn law_reading_keeps_positions(a: RawClient, b: RawClient)
    ensures
        client_of(a).x < client_of(b).x <==> a.at@[0] < b.at@[0],
        client_of(a).x == client_of(b).x <==> a.at@[0] == b.at@[0],
        client_of(a).x - client_of(b).x == a.at@[0] - b.at@[0],
{
}

/// Every monitor has the width that the last description of it gives, and no other
/// monitor has one.
pub proof fn law_monitors_have_their_widths(raw: Seq<RawMonitor>)
    ensures
        forall|i: int|
            0 <= i < raw.len() && (forall|j: int|
                i < j < raw.len() ==> (#[trigger] raw[j]).id != raw[i].id) ==> {
                &&& monitor_widths(raw).contains_key((#[trigger] raw[i]).id)
                &&& monitor_widths(raw)[raw[i].id] == raw[i].width
            },
        forall|id: i32| #[trigger]
            monitor_widths(raw).contains_key(id) <==> exists|i: int|
                0 <= i < raw.len() && (#[trigger] raw[i]).id == id,
    decreases raw.len(),
{
    if raw.len() > 0 {
        let front = raw.drop_last();
        let last = raw.len() - 1;
        law_monitors_have_their_widths(front);
        assert forall|i: int|
            0 <= i < raw.len() && (forall|j: int|
                i < j < raw.len() ==> (#[trigger] raw[j]).id != raw[i].id) implies {
            &&& monitor_widths(raw).contains_key((#[trigger] raw[i]).id)
            &&& monitor_widths(raw)[raw[i].id] == raw[i].width
        } by {
            if i < last {
                assert(front[i] == raw[i]);
                assert(raw[last].id != raw[i].id);
                assert forall|j: int| i < j < front.len() implies (#[trigger] front[j]).id
                    != front[i].id by {
                    assert(raw[j].id != raw[i].id);
                }
            }
        }
        assert forall|id: i32| #[trigger]
            monitor_widths(raw).contains_key(id) <==> exists|i: int|
                0 <= i < raw.len() && (#[trigger] raw[i]).id == id by {
            if monitor_widths(raw).contains_key(id) {
                if raw[last].id != id {
                    assert(monitor_widths(front).contains_key(id));
                    let i = choose|i: int| 0 <= i < front.len() && (#[trigger] front[i]).id == id;
                    assert(raw[i].id == id);
                }
            }
            if exists|i: int| 0 <= i < raw.len() && (#[trigger] raw[i]).id == id {
                let i = choose|i: int| 0 <= i < raw.len() && (#[trigger] raw[i]).id == id;
                if i < last {
                    assert(front[i].id == id);
                    assert(monitor_widths(front).contains_key(id));
                }
            }
        }
    }
}

/// The columns of a workspace are its mapped windows that do not float, all of them
/// and no others, from left to right.
pub proof fn law_columns_are_the_tiled_windows(clients: Seq<HyprClient>, ws_id: i32)
    ensures
        ({
            let columns = order::sorted(clients.filter(tiled_on(ws_id)));
            &&& forall|i: int, j: int|
                0 <= i < j < columns.len() ==> (#[trigger] columns[i]).x <= (#[trigger] columns[j]).x
            &&& forall|i: int|
                0 <= i < columns.len() ==> clients.contains(#[trigger] columns[i])
                    && columns[i].workspace_id == ws_id && columns[i].mapped
                    && !columns[i].floating
            &&& forall|i: int|
                0 <= i < clients.len() && (#[trigger] clients[i]).workspace_id == ws_id
                    && clients[i].mapped && !clients[i].floating ==> columns.contains(clients[i])
            &&& columns.len() == clients.filter(tiled_on(ws_id)).len()
        }),
{
    let kept = clients.filter(tiled_on(ws_id));
    let columns = order::sorted(kept);
    order::law_stable_sort_exists(kept);
    order::law_stable_sort_keeps_items(kept, columns);
    kept.to_multiset_ensures();
    columns.to_multiset_ensures();
    assert forall|i: int, j: int| 0 <= i < j < columns.len() implies (#[trigger] columns[i]).x <= (
    #[trigger] columns[j]).x by {
        assert(columns[i].rank() <= columns[j].rank());
    }
    assert forall|i: int| 0 <= i < columns.len() implies clients.contains(#[trigger] columns[i])
        && columns[i].workspace_id == ws_id && columns[i].mapped && !columns[i].floating by {
        assert(columns.contains(columns[i]));
        assert(columns.to_multiset().count(columns[i]) > 0);
        assert(kept.to_multiset().count(columns[i]) > 0);
        assert(kept.contains(columns[i]));
        let k = choose|k: int| 0 <= k < kept.len() && kept[k] == columns[i];
        clients.lemma_filter_pred(tiled_on(ws_id), k);
        clients.lemma_filter_contains_rev(tiled_on(ws_id), kept[k]);
    }
    assert forall|i: int|
        0 <= i < clients.len() && (#[trigger] clients[i]).workspace_id == ws_id
            && clients[i].mapped && !clients[i].floating implies columns.contains(clients[i]) by {
        clients.lemma_filter_contains(tiled_on(ws_id), i);
        assert(kept.to_multiset().count(clients[i]) > 0);
        assert(columns.to_multiset().count(clients[i]) > 0);
    }
}

/// A line that reports a closed window gives its address, and a line of any other
/// sort gives nothing.
pub proof fn law_lines_are_told_apart(line: Seq<char>, address: Seq<char>)
    ensures
        event_of("closewindow>>"@ + address) == Some(EventValue::Close { address }),
        event_of(line) matches Some(EventValue::Open { .. }) ==> text::begins(
            line,
            "openwindow>>"@,
        ),
        event_of(line) matches Some(EventValue::Close { address: a }) ==> line
            == "closewindow>>"@ + a,
        !text::begins(line, "openwindow>>"@) && !text::begins(line, "closewindow>>"@)
            ==> event_of(line) is None,
{
    let closed = "closewindow>>"@ + address;
    reveal_strlit("openwindow>>");
    reveal_strlit("closewindow>>");
    assert(closed[0] == 'c');
    text::law_prefix_is_taken_off(closed, "closewindow>>"@, address);
    assert(text::after_prefix(closed, "openwindow>>"@) is None) by {
        if text::holds_at(closed, "openwindow>>"@, 0) {
            assert(closed.subrange(0, "openwindow>>"@.len() as int)[0] == 'o');
        }
    }
    text::law_prefix_is_taken_off(line, "openwindow>>"@, Seq::empty());
    text::law_prefix_is_taken_off(line, "closewindow>>"@, Seq::empty());
    if let Some(a) = text::after_prefix(line, "closewindow>>"@) {
        text::law_prefix_is_taken_off(line, "closewindow>>"@, a);
    }
}

/// A wait counts the windows of its class that open, by their addresses, and counts
/// them no more once they close. Nothing else changes what it waits for.
pub proof fn law_events_change_what_is_counted(
    w: WaitState,
    address: Seq<char>,
    class: Seq<char>,
    now: u64,
)
    ensures
        ({
            let opened = after_event(w, EventValue::Open { address, class }, now);
            let closed = after_event(w, EventValue::Close { address }, now);
            &&& opened.open == (if class == w.class {
                w.open.insert(address)
            } else {
                w.open
            })
            &&& closed.open == w.open.remove(address)
            &&& opened.class == w.class && closed.class == w.class
            &&& opened.target == w.target && closed.target == w.target
            &&& opened.deadline == w.deadline && closed.deadline == w.deadline
            &&& opened.child_done == w.child_done && closed.child_done == w.child_done
        }),
{
    if !w.open.contains(address) {
        assert(w.open.remove(address) =~= w.open);
    }
}

/// The number of windows starts to settle when it reaches the target, goes on while
/// it stays there, and starts anew when a counted window closes.
pub proof fn law_settling_starts_at_the_target(
    w: WaitState,
    address: Seq<char>,
    now: u64,
)
    ensures
        ({
            let opened = after_event(w, EventValue::Open { address, class: w.class }, now);
            let closed = after_event(w, EventValue::Close { address }, now);
            &&& w.open.insert(address).len() != w.target ==> opened.stable_since is None
            &&& w.open.insert(address).len() == w.target ==> opened.stable_since
                == (if w.stable_since is Some {
                w.stable_since
            } else {
                Some(now)
            })
            &&& w.open.contains(address) ==> closed.stable_since == (if w.open.remove(address).len()
                == w.target {
                Some(now)
            } else {
                None
            })
            &&& !w.open.contains(address) ==> closed.stable_since == w.stable_since
        }),
{
}

/// Before its deadline a wait ends exactly where the number of windows has been at
/// the target for half a second.
pub proof fn law_waits_end_once_settled(buffer: Seq<EventValue>, w: WaitState, now: u64)
    requires
        now < w.deadline,
    ensures
        polled(buffer, w, now).action is Done <==> (w.stable_since matches Some(since) && now
            - since >= 500_000_000),
        polled(buffer, w, now).action matches WaitAction::Done(n) ==> n == w.open.len() as usize,
{
}

/// A wait that goes on takes up the first window of its class that was put aside,
/// and leaves the other events in their order.
pub proof fn law_put_aside_windows_are_taken_up(
    buffer: Seq<EventValue>,
    w: WaitState,
    now: u64,
    i: int,
    address: Seq<char>,
)
    requires
        now < w.deadline,
        w.stable_since is None,
        0 <= i < buffer.len(),
        buffer[i] == (EventValue::Open { address, class: w.class }),
        forall|j: int|
            0 <= j < i ==> ((#[trigger] buffer[j]) matches EventValue::Open { class, .. } ==> class
                != w.class),
    ensures
        ({
            let next = polled(buffer, w, now);
            &&& next.action is Again
            &&& next.wait.open == w.open.insert(address)
            &&& next.buffer == buffer.take(i) + buffer.skip(i + 1)
        }),
{
    assert(first_open(buffer, w.class, i));
    let c = choose|c: int| first_open(buffer, w.class, c);
    assert(first_open(buffer, w.class, c));
    if c < i {
        assert(!opens(buffer[c], w.class));
    } else if c > i {
        assert(!opens(buffer[i], w.class));
    }
    assert(buffer.remove(i) =~= buffer.take(i) + buffer.skip(i + 1));
}

/// A wait with nothing put aside for it waits for the next event: for a twentieth of
/// a second, or up to its deadline where that is sooner. It looks at its process
/// first, as long as that is not known to have ended.
pub proof fn law_waiting_is_in_short_steps(buffer: Seq<EventValue>, w: WaitState, now: u64)
    requires
        now < w.deadline,
        w.stable_since is None,
        forall|j: int| 0 <= j < buffer.len() ==> !opens(#[trigger] buffer[j], w.class),
    ensures
        ({
            let next = polled(buffer, w, now);
            &&& next.wait.timeout <= 50_000_000
            &&& next.wait.timeout <= w.deadline - now
            &&& next.wait.timeout == 50_000_000 || next.wait.timeout == w.deadline - now
            &&& next.action == (if w.child_done {
                WaitAction::Receive(next.wait.timeout)
            } else {
                WaitAction::CheckChild
            })
            &&& next.buffer == buffer
            &&& next.wait.open == w.open
        }),
{
    if exists|i: int| first_open(buffer, w.class, i) {
        let i = choose|i: int| first_open(buffer, w.class, i);
        assert(!opens(buffer[i], w.class));
    }
}

/// Events that are not for a wait stay, in their order, and a new one comes last.
/// Closed windows are not put aside.
pub proof fn law_putting_aside_keeps_the_order(
    buffer: Seq<EventValue>,
    w: WaitState,
    address: Seq<char>,
    class: Seq<char>,
)
    ensures
        after_event_buffer(buffer, w, EventValue::Close { address }) == buffer,
        class == w.class ==> after_event_buffer(buffer, w, EventValue::Open { address, class })
            == buffer,
        class != w.class ==> after_event_buffer(
            buffer,
            w,
            EventValue::Open { address, class },
        ).drop_last() == buffer,
{
    assert(buffer.push(EventValue::Open { address, class }).drop_last() =~= buffer);
}

/// A window that was launched is waited for twenty seconds.
pub proof fn law_windows_are_waited_for(now: u64)
    ensures
        now <= u64::MAX - 20_000_000_000 ==> deadline_from(now) - now == 20_000_000_000,
        deadline_from(now) >= now,
{
}

/// The event socket is below the directory, in that of the instance.
pub proof fn law_socket_is_in_the_directory(base: Seq<char>, signature: Seq<char>)
    ensures
        text::begins(socket_below(base, signature), base + "/hypr/"@ + signature),
        text::ends(socket_below(base, signature), "/.socket2.sock"@),
        socket_below(base, signature).len() == base.len() + "/hypr/"@.len() + signature.len()
            + "/.socket2.sock"@.len(),
{
    let head = base + "/hypr/"@ + signature;
    assert(socket_below(base, signature) == head + "/.socket2.sock"@);
}

/// A process that ends within a second and a half has handed over: eight seconds are
/// waited from then. Once that is known, its end is not looked at again, and what is
/// counted stays.
pub proof fn law_handing_over_takes_eight_seconds(w: WaitState, exited: bool, now: u64)
    requires
        now <= u64::MAX - 8_000_000_000,
    ensures
        ({
            let next = after_child(w, exited, now);
            &&& next.child_done <==> w.child_done || exited
            &&& next.deadline == (if exited && !w.child_done && now - w.started < 1_500_000_000 {
                now + 8_000_000_000
            } else {
                w.deadline as int
            })
            &&& next.open == w.open
            &&& next.class == w.class
            &&& next.target == w.target
            &&& next.stable_since == w.stable_since
            &&& next.started == w.started
        }),
{
}

/// What is told of a process that handed over gives its class and the milliseconds.
pub proof fn law_handing_over_is_told(class: Seq<char>, ms: u64)
    requires
        ms <= 18_000_000_000_000,
    ensures
        text::begins(
            handoff_text(class, (ms * 1_000_000) as u64),
            "  "@ + class + ": quick exit ("@ + text::decimal(ms as nat) + "ms)"@,
        ),
{
    reveal_strlit("ms)");
    reveal_strlit("ms) — single-instance handoff, extending wait to 8s");
    let took = (ms * 1_000_000) as u64;
    assert(took / 1_000_000 == ms);
    let t = handoff_text(class, took);
    let head = "  "@ + class + ": quick exit ("@ + text::decimal(ms as nat) + "ms)"@;
    assert(t =~= head + t.skip(head.len() as int));
}

/// The dispatches name what they are about: the workspace, the window by its address,
/// the width.
pub proof fn law_dispatches_name_their_target(
    id: i32,
    address: &str,
    ratio: &str,
    to_workspace: String,
    to_window: String,
    moved: String,
    swapped: String,
    resized: String,
)
    requires
        call_ensures(focus_workspace, (id,), to_workspace),
        call_ensures(focus_window, (address,), to_window),
        call_ensures(move_to_workspace_silent, (address, id), moved),
        call_ensures(swapcol_left, (), swapped),
        call_ensures(colresize, (ratio,), resized),
    ensures
        to_workspace@ == "hl.dsp.focus({workspace = "@ + text::signed_decimal(id as int) + "})"@,
        to_window@ == "hl.dsp.focus({ window = \"address:"@ + address@ + "\" })"@,
        text::begins(
            moved@,
            "hl.dsp.window.move({workspace = "@ + text::signed_decimal(id as int)
                + ", follow = false"@,
        ),
        text::ends(moved@, "window = \"address:"@ + address@ + "\"})"@),
        swapped@ == "hl.dsp.layout(\"swapcol l\")"@,
        resized@ == "hl.dsp.layout(\"colresize "@ + ratio@ + "\")"@,
{
    reveal_strlit(", follow = false");
    reveal_strlit("window = \"address:");
    reveal_strlit(", follow = false, window = \"address:");
    let head = "hl.dsp.window.move({workspace = "@ + text::signed_decimal(id as int)
        + ", follow = false"@;
    let tail = "window = \"address:"@ + address@ + "\"})"@;
    assert(moved@ =~= head + moved@.skip(head.len() as int));
    assert(moved@ =~= moved@.take(moved@.len() - tail.len()) + tail);
}

/// The event socket is looked for in the runtime directory where it is there, else in
/// the place of older versions, and nowhere without an instance.
pub proof fn law_sockets_need_an_instance(
    signature: Option<String>,
    runtime_dir: Option<String>,
    in_runtime_dir: bool,
    r: Option<String>,
)
    requires
        call_ensures(socket2_path, (signature, runtime_dir, in_runtime_dir), r),
    ensures
        r is Some <==> signature is Some,
        signature is Some && runtime_dir is Some && in_runtime_dir ==> text::begins(
            r->0@,
            runtime_dir->0@ + "/hypr/"@ + signature->0@,
        ),
        signature is Some && (runtime_dir is None || !in_runtime_dir) ==> text::begins(
            r->0@,
            "/tmp"@ + "/hypr/"@ + signature->0@,
        ),
{
    if signature is Some {
        law_socket_is_in_the_directory("/tmp"@, signature->0@);
        if runtime_dir is Some {
            law_socket_is_in_the_directory(runtime_dir->0@, signature->0@);
        }
    }
}

/// The workspace with the focus is the one that is described.
pub proof fn law_active_workspace_is_as_described(raw: RawActiveWorkspace, r: i32)
    requires
        call_ensures(get_active_workspace_id, (raw,), r),
    ensures
        r == raw.id,
{
}

/// A wait begins with no window counted and nothing settled, for the class and the
/// number of windows that were asked for, and up to the deadline.
pub proof fn law_waits_begin_empty(
    stream: &EventStream,
    class: &str,
    target: usize,
    deadline: u64,
    has_child: bool,
    now: u64,
    r: Wait,
)
    requires
        call_ensures(
            EventStream::wait_for_count,
            (stream, class, target, deadline, has_child, now),
            r,
        ),
    ensures
        r@.open.len() == 0,
        r@.stable_since is None,
        r@.class == class@,
        r@.target == target,
        r@.deadline == deadline,
        r@.started == now,
        r@.child_done <==> !has_child,
{
}

} // verus!
