//! What is open while a session is restored.

use std::collections::HashMap;

use vstd::prelude::*;

use crate::collections::{ClassMap, TextSet};
use crate::desktop_entry::{self, DesktopFile};
use crate::hyprland::{self, HyprClient};
use crate::order;
use crate::restore::columns::{LiveValue, LiveWindow};
use crate::restore::protocol::{Reply, ReplyValue};
use crate::restore::{columns, tally};
use crate::text;

verus! {

broadcast use vstd::std_specs::hash::group_hash_axioms;

/// The initial classes of windows.
pub open spec fn client_classes(clients: Seq<HyprClient>) -> Seq<Seq<char>> {
    clients.map_values(|c: HyprClient| c.initial_class@)
}

/// The addresses of windows.
pub open spec fn client_addresses(clients: Seq<HyprClient>) -> Seq<Seq<char>> {
    clients.map_values(|c: HyprClient| c.address@)
}

/// Counts the windows whose initial class is `class`. A session stores the
/// initial class, and unlike the class in an event it does not change.
pub fn count_class(clients: &Vec<HyprClient>, class: &str) -> (r: usize)
    ensures
        r == tally::count_of(client_classes(clients@), class@),
        r <= clients@.len(),
{
    let ghost classes = client_classes(clients@);
    let mut n: usize = 0;
    let mut i: usize = 0;
    assert(classes.take(0) =~= Seq::<Seq<char>>::empty());
    while i < clients.len()
        invariant
            0 <= i <= clients@.len(),
            classes == client_classes(clients@),
            n == tally::count_of(classes.take(i as int), class@),
            n <= i,
        decreases clients@.len() - i,
    {
        proof {
            tally::lemma_count_step(classes, i as int, class@);
        }
        if text::same(clients[i].initial_class.as_str(), class) {
            n += 1;
        }
        i += 1;
    }
    assert(classes.take(classes.len() as int) =~= classes);
    n
}

/// What was open before a restore: how many windows of each class, and their
/// addresses.
pub struct Snapshot {
    pub counts: ClassMap<usize>,
    pub addresses: TextSet,
}

/// The number of windows of each class that occurs.
pub open spec fn class_counts(classes: Seq<Seq<char>>) -> Map<Seq<char>, usize> {
    Map::new(
        |c: Seq<char>| tally::count_of(classes, c) > 0,
        |c: Seq<char>| tally::count_of(classes, c) as usize,
    )
}

/// Takes down what is open.
pub fn snapshot(clients: &Vec<HyprClient>) -> (r: Snapshot)
    ensures
        r.counts@ == class_counts(client_classes(clients@)),
        r.addresses@ == client_addresses(clients@).to_set(),
{
    let ghost classes = client_classes(clients@);
    let ghost all = client_addresses(clients@);
    let mut counts: ClassMap<usize> = ClassMap::new();
    let mut addresses: TextSet = TextSet::new();
    let mut i: usize = 0;
    proof {
        assert(classes.take(0) =~= Seq::<Seq<char>>::empty());
        assert(counts@ =~= class_counts(classes.take(0)));
        assert(all.take(0) =~= Seq::<Seq<char>>::empty());
        assert(addresses@ =~= all.take(0).to_set());
    }
    while i < clients.len()
        invariant
            0 <= i <= clients@.len(),
            classes == client_classes(clients@),
            all == client_addresses(clients@),
            counts@ == class_counts(classes.take(i as int)),
            addresses@ == all.take(i as int).to_set(),
        decreases clients@.len() - i,
    {
        let class: &String = &clients[i].initial_class;
        let ghost before = classes.take(i as int);
        let ghost after = classes.take(i as int + 1);
        proof {
            tally::lemma_count_bounds(before, class@);
        }
        let n: usize = match counts.get(class.as_str()) {
            Some(n) => *n,
            None => 0,
        };
        assert(n == tally::count_of(before, class@));
        assert(n <= i);
        counts.insert(class.clone(), n + 1);
        proof {
            assert forall|c: Seq<char>| tally::count_of(after, c) == tally::count_of(before, c) + (
            if class@ == c {
                1int
            } else {
                0int
            }) by {
                tally::lemma_count_step(classes, i as int, c);
            }
            assert(counts@ =~= class_counts(after));
            assert(all.take(i as int + 1) =~= all.take(i as int).push(clients@[i as int].address@));
            all.take(i as int).lemma_push_to_set_commute(clients@[i as int].address@);
        }
        let _ = addresses.insert(clients[i].address.clone());
        i += 1;
    }
    assert(classes.take(classes.len() as int) =~= classes);
    assert(all.take(all.len() as int) =~= all);
    Snapshot { counts, addresses }
}

/// The columns of workspace `ws_id`, from left to right.
pub open spec fn columns_of(clients: Seq<HyprClient>, ws_id: i32) -> Seq<LiveValue> {
    order::sorted(clients.filter(hyprland::tiled_on(ws_id))).map_values(
        |c: HyprClient| LiveValue { address: c.address@, class: c.initial_class@ },
    )
}

/// The windows on workspace `ws_id`, for planning their order and widths.
pub fn live_windows(clients: Vec<HyprClient>, ws_id: i32) -> (r: Vec<LiveWindow>)
    ensures
        columns::live_values(r@) == columns_of(clients@, ws_id),
{
    let tiled: Vec<HyprClient> = hyprland::get_workspace_clients_sorted(clients, ws_id);
    let mut out: Vec<LiveWindow> = Vec::new();
    let mut i: usize = 0;
    while i < tiled.len()
        invariant
            0 <= i <= tiled@.len(),
            out@.len() == i,
            forall|j: int|
                0 <= j < i ==> (#[trigger] out@[j]).address@ == tiled@[j].address@
                    && out@[j].class@ == tiled@[j].initial_class@,
        decreases tiled@.len() - i,
    {
        let w = LiveWindow {
            address: tiled[i].address.clone(),
            class: tiled[i].initial_class.clone(),
        };
        out.push(w);
        i += 1;
    }
    assert(columns::live_values(out@) =~= columns_of(clients@, ws_id));
    out
}

/// The width of a window, as a fraction: `width / monitor_width`.
pub struct WidthRatio {
    pub address: String,
    pub width: i32,
    pub monitor_width: i32,
}

/// The width of a window, as values.
pub struct RatioValue {
    pub address: Seq<char>,
    pub width: i32,
    pub monitor_width: i32,
}

impl View for WidthRatio {
    type V = RatioValue;

    open spec fn view(&self) -> RatioValue {
        RatioValue {
            address: self.address@,
            width: self.width,
            monitor_width: self.monitor_width,
        }
    }
}

/// The width to take a fraction of: that of the monitor, where it is known and
/// not zero or less.
pub open spec fn usable_width(monitors: Map<i32, i32>, monitor: i32) -> i32 {
    if monitors.contains_key(monitor) && monitors[monitor] > 0 {
        monitors[monitor]
    } else {
        hyprland::FALLBACK_MONITOR_WIDTH
    }
}

/// The widths of the columns of workspace `ws_id`, from left to right.
pub open spec fn ratios_of(
    clients: Seq<HyprClient>,
    monitors: Map<i32, i32>,
    ws_id: i32,
) -> Seq<RatioValue> {
    order::sorted(clients.filter(hyprland::tiled_on(ws_id))).map_values(
        |c: HyprClient|
            RatioValue {
                address: c.address@,
                width: c.width,
                monitor_width: usable_width(monitors, c.monitor),
            },
    )
}

/// The values of a sequence of widths.
pub open spec fn ratio_values(v: Seq<WidthRatio>) -> Seq<RatioValue> {
    v.map_values(|r: WidthRatio| r@)
}

/// The windows on workspace `ws_id` with their widths as fractions of their
/// monitors, so that a resize can be held against the width that was asked for.
pub fn live_width_ratios(
    clients: Vec<HyprClient>,
    monitors: &HashMap<i32, i32>,
    ws_id: i32,
) -> (r: Vec<WidthRatio>)
    ensures
        ratio_values(r@) == ratios_of(clients@, monitors@, ws_id),
        forall|i: int| 0 <= i < r@.len() ==> (#[trigger] r@[i]).monitor_width > 0,
{
    let tiled: Vec<HyprClient> = hyprland::get_workspace_clients_sorted(clients, ws_id);
    let mut out: Vec<WidthRatio> = Vec::new();
    let mut i: usize = 0;
    while i < tiled.len()
        invariant
            0 <= i <= tiled@.len(),
            out@.len() == i,
            forall|j: int|
                0 <= j < i ==> (#[trigger] out@[j])@ == (RatioValue {
                    address: tiled@[j].address@,
                    width: tiled@[j].width,
                    monitor_width: usable_width(monitors@, tiled@[j].monitor),
                }),
        decreases tiled@.len() - i,
    {
        let c: &HyprClient = &tiled[i];
        let monitor_width: i32 = match monitors.get(&c.monitor) {
            Some(w) => if *w > 0 {
                *w
            } else {
                hyprland::FALLBACK_MONITOR_WIDTH
            },
            None => hyprland::FALLBACK_MONITOR_WIDTH,
        };
        let ratio = WidthRatio { address: c.address.clone(), width: c.width, monitor_width };
        out.push(ratio);
        i += 1;
    }
    proof {
        assert(ratio_values(out@) =~= ratios_of(clients@, monitors@, ws_id));
        assert forall|k: int| 0 <= k < out@.len() implies (#[trigger] out@[k]).monitor_width > 0 by {
            assert(out@[k]@.monitor_width == usable_width(monitors@, tiled@[k].monitor));
        }
    }
    out
}

/// The command that launches `class`: `exe` where it is still there, else what a
/// desktop entry says.
pub open spec fn launch_command(
    class: Seq<char>,
    exe: Seq<char>,
    exe_exists: bool,
    entries: Seq<DesktopFile>,
) -> Option<Seq<Seq<char>>> {
    if exe_exists {
        Some(seq![exe])
    } else {
        desktop_entry::resolved(
            class,
            desktop_entry::lowercase_of(class) + ".desktop"@,
            entries,
        )
    }
}

/// Resolves the command that launches `class`. An executable that still exists is
/// used as it is. One that does not may have moved with an update of the app, so
/// the desktop entries are searched for the class.
pub fn resolve_launch_command(
    class: &str,
    exe: &str,
    exe_exists: bool,
    entries: &Vec<DesktopFile>,
) -> (r: Option<Vec<String>>)
    ensures
        desktop_entry::opt_texts(r) == launch_command(class@, exe@, exe_exists, entries@),
{
    if exe_exists {
        let mut cmd: Vec<String> = Vec::new();
        cmd.push(exe.to_owned());
        assert(text::texts(cmd@) =~= seq![exe@]);
        return Some(cmd);
    }
    desktop_entry::resolve_by_class(class, entries)
}

/// The answer to the query for the command that launches `class`.
pub fn resolve_reply(
    class: &str,
    exe: &str,
    exe_exists: bool,
    entries: &Vec<DesktopFile>,
) -> (r: Reply)
    ensures
        r@ == ReplyValue::Command(launch_command(class@, exe@, exe_exists, entries@)),
{
    Reply::Command(resolve_launch_command(class, exe, exe_exists, entries))
}

/// A snapshot has a class exactly where a window of it is open, with the number of
/// its windows.
pub proof fn law_snapshots_count_what_is_open(clients: Seq<HyprClient>, class: Seq<char>)
    requires
        clients.len() <= usize::MAX,
    ensures
        ({
            let counts = class_counts(client_classes(clients));
            &&& counts.contains_key(class) <==> exists|i: int|
                0 <= i < clients.len() && (#[trigger] clients[i]).initial_class@ == class
            &&& counts.contains_key(class) ==> counts[class] == tally::count_of(
                client_classes(clients),
                class,
            )
        }),
{
    let classes = client_classes(clients);
    tally::lemma_count_bounds(classes, class);
    if classes.contains(class) {
        let i = choose|i: int| 0 <= i < classes.len() && classes[i] == class;
        assert(clients[i].initial_class@ == class);
    }
    if exists|i: int| 0 <= i < clients.len() && (#[trigger] clients[i]).initial_class@ == class {
        let i = choose|i: int|
            0 <= i < clients.len() && (#[trigger] clients[i]).initial_class@ == class;
        assert(classes[i] == class);
    }
}

/// A snapshot knows the addresses of all open windows, and no others.
pub proof fn law_snapshots_know_all_addresses(clients: Seq<HyprClient>, address: Seq<char>)
    ensures
        client_addresses(clients).to_set().contains(address) <==> exists|i: int|
            0 <= i < clients.len() && (#[trigger] clients[i]).address@ == address,
{
    let all = client_addresses(clients);
    if all.contains(address) {
        let i = choose|i: int| 0 <= i < all.len() && all[i] == address;
        assert(clients[i].address@ == address);
    }
    if exists|i: int| 0 <= i < clients.len() && (#[trigger] clients[i]).address@ == address {
        let i = choose|i: int| 0 <= i < clients.len() && (#[trigger] clients[i]).address@ == address;
        assert(all[i] == address);
    }
}

/// The columns that are put in order are the tiled windows from left to right, each
/// with its own address and initial class; and their widths are their own, each as a
/// fraction of its own monitor, or of 1920 where that has no usable width.
pub proof fn law_columns_are_windows(
    clients: Seq<HyprClient>,
    monitors: Map<i32, i32>,
    ws_id: i32,
    i: int,
)
    requires
        0 <= i < order::sorted(clients.filter(hyprland::tiled_on(ws_id))).len(),
    ensures
        ({
            let c = order::sorted(clients.filter(hyprland::tiled_on(ws_id)))[i];
            let column = columns_of(clients, ws_id)[i];
            let ratio = ratios_of(clients, monitors, ws_id)[i];
            &&& columns_of(clients, ws_id).len() == order::sorted(
                clients.filter(hyprland::tiled_on(ws_id)),
            ).len()
            &&& ratios_of(clients, monitors, ws_id).len() == columns_of(clients, ws_id).len()
            &&& column.address == c.address@
            &&& column.class == c.initial_class@
            &&& ratio.address == c.address@
            &&& ratio.width == c.width
            &&& ratio.monitor_width > 0
            &&& monitors.contains_key(c.monitor) && monitors[c.monitor] > 0 ==> ratio.monitor_width
                == monitors[c.monitor]
            &&& !(monitors.contains_key(c.monitor) && monitors[c.monitor] > 0)
                ==> ratio.monitor_width == 1920
        }),
{
}

/// A program that is still there is launched as it is, without arguments; one that is
/// gone is looked for among the desktop entries.
pub proof fn law_existing_programs_are_used(
    class: Seq<char>,
    exe: Seq<char>,
    entries: Seq<DesktopFile>,
)
    ensures
        launch_command(class, exe, true, entries) matches Some(c) && c.len() == 1 && c[0] == exe,
        launch_command(class, exe, false, entries) == desktop_entry::resolved(
            class,
            desktop_entry::lowercase_of(class) + ".desktop"@,
            entries,
        ),
        entries.len() == 0 ==> launch_command(class, exe, false, entries) is None,
{
}

} // verus!
