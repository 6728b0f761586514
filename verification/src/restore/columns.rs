//! The order of the columns of a workspace, and their widths.

use vstd::prelude::*;

use crate::config;
use crate::restore::tally;
use crate::text;

verus! {

/// A window that is open on the workspace being restored.
pub struct LiveWindow {
    pub address: String,
    pub class: String,
}

/// An open window, as values.
pub struct LiveValue {
    pub address: Seq<char>,
    pub class: Seq<char>,
}

impl View for LiveWindow {
    type V = LiveValue;

    open spec fn view(&self) -> LiveValue {
        LiveValue { address: self.address@, class: self.class@ }
    }
}

/// The values of a sequence of open windows.
pub open spec fn live_values(live: Seq<LiveWindow>) -> Seq<LiveValue> {
    live.map_values(|w: LiveWindow| w@)
}

/// The classes of open windows, from left to right.
pub open spec fn live_classes(live: Seq<LiveValue>) -> Seq<Seq<char>> {
    live.map_values(|w: LiveValue| w.class)
}

/// Whether the columns are in the saved order, as far as both go.
pub open spec fn in_order(saved: Seq<Seq<char>>, live: Seq<LiveValue>) -> bool {
    forall|i: int| 0 <= i < saved.len() && i < live.len() ==> (#[trigger] live[i]).class == saved[i]
}

/// Whether the live columns are in the saved order. Only the columns that both
/// have are held against each other: saved windows that are not there are passed
/// over, and so are further windows at the end.
pub fn columns_match(saved: &[&str], live: &[LiveWindow]) -> (r: bool)
    ensures
        r == in_order(config::words(saved@), live_values(live@)),
{
    let mut i: usize = 0;
    while i < saved.len() && i < live.len()
        invariant
            0 <= i <= saved@.len(),
            i <= live@.len(),
            forall|j: int| 0 <= j < i ==> (#[trigger] live@[j]).class@ == saved@[j]@,
        decreases saved@.len() - i,
    {
        if !text::same(live[i].class.as_str(), saved[i]) {
            assert(live_values(live@)[i as int].class != config::words(saved@)[i as int]);
            return false;
        }
        i += 1;
    }
    proof {
        let values = live_values(live@);
        let words = config::words(saved@);
        assert forall|j: int| 0 <= j < words.len() && j < values.len() implies (
        #[trigger] values[j]).class == words[j] by {
            assert(values[j] == live@[j]@);
        }
    }
    true
}

/// Whether the leftmost window of `class` at `from` or right of it is at `j`.
pub open spec fn is_next(live: Seq<LiveValue>, class: Seq<char>, from: int, j: int) -> bool {
    &&& from <= j < live.len()
    &&& live[j].class == class
    &&& forall|k: int| from <= k < j ==> (#[trigger] live[k]).class != class
}

/// The columns once the one at `from` has been moved left to `to`.
pub open spec fn moved_left(live: Seq<LiveValue>, from: int, to: int) -> Seq<LiveValue> {
    live.remove(from).insert(to, live[from])
}

/// How the columns come to stand, and the moves that bring them there: a window
/// and the number of columns that it goes left. The notes tell for diagnostics what
/// was moved and what was not found.
pub struct Arranged {
    pub live: Seq<LiveValue>,
    pub ops: Seq<(Seq<char>, nat)>,
    pub notes: Seq<Seq<char>>,
}

/// Tells of a window that is moved.
pub open spec fn moved_note(class: Seq<char>, from: nat, to: nat) -> Seq<char> {
    "  reorder: bubble "@ + class + " from col "@ + text::decimal(from) + " → "@ + text::decimal(to)
        + " ("@ + text::decimal((from - to) as nat) + " swap(s))"@
}

/// Tells of a window that is not there.
pub open spec fn missing_note(class: Seq<char>, position: nat) -> Seq<char> {
    "  reorder: no "@ + class + " found after position "@ + text::decimal(position)
        + ", skipping"@
}

/// The columns once the first `n` positions have been filled from the left, each
/// with the nearest window of the class that was saved there. A position for
/// which there is no such window stays as it is.
pub open spec fn arranged(saved: Seq<Seq<char>>, live: Seq<LiveValue>, n: nat) -> Arranged
    decreases n,
{
    if n == 0 {
        Arranged { live, ops: Seq::empty(), notes: Seq::empty() }
    } else {
        let i = n - 1;
        let before = arranged(saved, live, i as nat);
        if exists|j: int| is_next(before.live, saved[i], i, j) {
            let j = choose|j: int| is_next(before.live, saved[i], i, j);
            if j == i {
                before
            } else {
                Arranged {
                    live: moved_left(before.live, j, i),
                    ops: before.ops.push((before.live[j].address, (j - i) as nat)),
                    notes: before.notes.push(moved_note(saved[i], j as nat, i as nat)),
                }
            }
        } else {
            Arranged { notes: before.notes.push(missing_note(saved[i], i as nat)), ..before }
        }
    }
}

/// The number of positions that are filled: those of the columns that both sides
/// have. Further windows are left at the end.
pub open spec fn positions(saved: nat, live: nat) -> nat {
    if saved < live {
        saved
    } else {
        live
    }
}

/// The moves, as values.
pub open spec fn move_values(ops: Seq<(String, usize)>) -> Seq<(Seq<char>, nat)> {
    ops.map_values(|op: (String, usize)| (op.0@, op.1 as nat))
}

/// The position of the leftmost window of `class` at `from` or right of it.
fn find_next(live: &Vec<LiveWindow>, class: &str, from: usize) -> (r: Option<usize>)
    ensures
        match r {
            Some(j) => is_next(live_values(live@), class@, from as int, j as int),
            None => forall|j: int| !is_next(live_values(live@), class@, from as int, j),
        },
{
    let ghost values = live_values(live@);
    let mut j: usize = from;
    while j < live.len()
        invariant
            from <= j,
            values == live_values(live@),
            forall|k: int|
                from <= k < j && k < values.len() ==> (#[trigger] values[k]).class != class@,
        decreases live@.len() - j,
    {
        assert(values[j as int] == live@[j as int]@);
        if text::same(live[j].class.as_str(), class) {
            return Some(j);
        }
        j += 1;
    }
    None
}

/// Plans the moves that bring `live` into the order of `saved`: for each position
/// from the left, the nearest window of the expected class is moved left to it.
/// Returns for each move the window to focus and the number of columns that it
/// goes left. `live` is left in the order that the moves lead to, with windows that
/// were not saved at the end.
pub fn plan_column_swaps(saved: &[&str], live: &mut Vec<LiveWindow>) -> (r: Vec<(String, usize)>)
    ensures
        ({
            let n = positions(saved@.len(), old(live)@.len());
            let a = arranged(config::words(saved@), live_values(old(live)@), n);
            &&& live_values(final(live)@) == a.live
            &&& move_values(r@) == a.ops
        }),
{
    plan_moves(saved, live).0
}

fn describe_move(class: &str, from: usize, to: usize) -> (r: String)
    requires
        to <= from,
    ensures
        r@ == moved_note(class@, from as nat, to as nat),
{
    let steps: String = text::usize_text(from - to);
    let from: String = text::usize_text(from);
    let to: String = text::usize_text(to);
    let head: String = text::join3("  reorder: bubble ", class, " from col ");
    let head: String = text::join3(head.as_str(), from.as_str(), " → ");
    let head: String = text::join3(head.as_str(), to.as_str(), " (");
    text::join3(head.as_str(), steps.as_str(), " swap(s))")
}

fn describe_missing(class: &str, position: usize) -> (r: String)
    ensures
        r@ == missing_note(class@, position as nat),
{
    let position: String = text::usize_text(position);
    let head: String = text::join3("  reorder: no ", class, " found after position ");
    text::join3(head.as_str(), position.as_str(), ", skipping")
}

/// Plans the moves that bring `live` into the order of `saved`, and tells of them.
pub fn plan_moves(saved: &[&str], live: &mut Vec<LiveWindow>) -> (r: (
    Vec<(String, usize)>,
    Vec<String>,
))
    ensures
        ({
            let n = positions(saved@.len(), old(live)@.len());
            let a = arranged(config::words(saved@), live_values(old(live)@), n);
            &&& live_values(final(live)@) == a.live
            &&& move_values(r.0@) == a.ops
            &&& text::texts(r.1@) == a.notes
        }),
{
    let ghost words = config::words(saved@);
    let ghost start = live_values(live@);
    let n: usize = if saved.len() < live.len() {
        saved.len()
    } else {
        live.len()
    };
    let mut ops: Vec<(String, usize)> = Vec::new();
    let mut notes: Vec<String> = Vec::new();
    let mut i: usize = 0;
    assert(move_values(ops@) =~= arranged(words, start, 0).ops);
    assert(text::texts(notes@) =~= arranged(words, start, 0).notes);
    while i < n
        invariant
            0 <= i <= n,
            n <= saved@.len(),
            n <= live@.len(),
            words == config::words(saved@),
            live_values(live@) == arranged(words, start, i as nat).live,
            move_values(ops@) == arranged(words, start, i as nat).ops,
            text::texts(notes@) == arranged(words, start, i as nat).notes,
        decreases n - i,
    {
        let ghost values = live_values(live@);
        let ghost told = text::texts(notes@);
        assert(words[i as int] == saved@[i as int]@);
        let next: Option<usize> = find_next(live, saved[i], i);
        if let Some(j) = next {
            proof {
                let k = choose|k: int| is_next(values, words[i as int], i as int, k);
                assert(is_next(values, words[i as int], i as int, j as int));
                assert(k == j) by {
                    if k < j {
                        assert(values[k].class == words[i as int]);
                    } else if j < k {
                        assert(values[j as int].class == words[i as int]);
                    }
                }
            }
            if j > i {
                let ghost was = move_values(ops@);
                assert(values[j as int] == live@[j as int]@);
                let address: String = live[j].address.clone();
                let item: LiveWindow = live.remove(j);
                assert(live_values(live@) =~= values.remove(j as int));
                live.insert(i, item);
                assert(live_values(live@) =~= moved_left(values, j as int, i as int));
                ops.push((address, j - i));
                assert(move_values(ops@) =~= was.push((address@, (j - i) as nat)));
                let note: String = describe_move(saved[i], j, i);
                notes.push(note);
                assert(text::texts(notes@) =~= told.push(note@));
            }
        } else {
            let note: String = describe_missing(saved[i], i);
            notes.push(note);
            assert(text::texts(notes@) =~= told.push(note@));
        }
        i += 1;
    }
    (ops, notes)
}

/// A column and its left neighbour exchanged.
pub open spec fn swapped_left(live: Seq<LiveValue>, p: int) -> Seq<LiveValue> {
    live.update(p, live[p - 1]).update(p - 1, live[p])
}

/// The columns once the focused window `address` has been swapped with its left
/// neighbour `steps` times. At the left end nothing happens.
pub open spec fn bubbled(live: Seq<LiveValue>, address: Seq<char>, steps: nat) -> Seq<LiveValue>
    decreases steps,
{
    if steps == 0 {
        live
    } else {
        let before = bubbled(live, address, (steps - 1) as nat);
        let p = choose|p: int| 0 <= p < before.len() && (#[trigger] before[p]).address == address;
        if 0 < p < before.len() && before[p].address == address {
            swapped_left(before, p)
        } else {
            before
        }
    }
}

/// The columns once all moves have been carried out.
pub open spec fn carried_out(live: Seq<LiveValue>, ops: Seq<(Seq<char>, nat)>) -> Seq<LiveValue>
    decreases ops.len(),
{
    if ops.len() == 0 {
        live
    } else {
        bubbled(carried_out(live, ops.drop_last()), ops.last().0, ops.last().1)
    }
}

/// No two windows have the same address.
pub open spec fn distinct_addresses(live: Seq<LiveValue>) -> bool {
    forall|i: int, j: int|
        0 <= i < j < live.len() ==> (#[trigger] live[i]).address != (#[trigger] live[j]).address
}

proof fn lemma_bubbled(live: Seq<LiveValue>, from: int, steps: nat)
    requires
        distinct_addresses(live),
        0 <= from - steps,
        from < live.len(),
    ensures
        bubbled(live, live[from].address, steps) == moved_left(live, from, from - steps),
        distinct_addresses(bubbled(live, live[from].address, steps)),
    decreases steps,
{
    let address = live[from].address;
    if steps == 0 {
        assert(moved_left(live, from, from) =~= live);
    } else {
        let m = (steps - 1) as nat;
        lemma_bubbled(live, from, m);
        let before = bubbled(live, address, m);
        let at = from - m;
        assert(before[at].address == address);
        let p = choose|p: int| 0 <= p < before.len() && (#[trigger] before[p]).address == address;
        assert(p == at);
        assert(swapped_left(before, at) =~= moved_left(live, from, from - steps));
        let after = swapped_left(before, at);
        assert forall|i: int, j: int| 0 <= i < j < after.len() implies (#[trigger] after[i]).address
            != (#[trigger] after[j]).address by {
            let a = if i == at {
                at - 1
            } else if i == at - 1 {
                at
            } else {
                i
            };
            let b = if j == at {
                at - 1
            } else if j == at - 1 {
                at
            } else {
                j
            };
            assert(after[i] == before[a] && after[j] == before[b]);
            if a < b {
                assert(before[a].address != before[b].address);
            } else {
                assert(before[b].address != before[a].address);
            }
        }
    }
}

proof fn lemma_arranged_keeps_addresses(saved: Seq<Seq<char>>, live: Seq<LiveValue>, n: nat)
    requires
        distinct_addresses(live),
    ensures
        carried_out(live, arranged(saved, live, n).ops) == arranged(saved, live, n).live,
        distinct_addresses(arranged(saved, live, n).live),
    decreases n,
{
    if n > 0 {
        let i = n - 1;
        lemma_arranged_keeps_addresses(saved, live, i as nat);
        let before = arranged(saved, live, i as nat);
        if exists|j: int| is_next(before.live, saved[i], i, j) {
            let j = choose|j: int| is_next(before.live, saved[i], i, j);
            if j != i {
                let ops = arranged(saved, live, n).ops;
                assert(ops.drop_last() =~= before.ops);
                lemma_bubbled(before.live, j, (j - i) as nat);
            }
        }
    }
}

/// The planned moves, carried out one swap at a time on columns with different
/// addresses, lead to the planned order.
pub proof fn law_moves_lead_to_the_planned_order(saved: Seq<Seq<char>>, live: Seq<LiveValue>)
    requires
        distinct_addresses(live),
    ensures
        ({
            let a = arranged(saved, live, positions(saved.len(), live.len()));
            carried_out(live, a.ops) == a.live
        }),
{
    lemma_arranged_keeps_addresses(saved, live, positions(saved.len(), live.len()));
}

proof fn lemma_arranged_permutes(saved: Seq<Seq<char>>, live: Seq<LiveValue>, n: nat)
    ensures
        arranged(saved, live, n).live.len() == live.len(),
        arranged(saved, live, n).live.to_multiset() == live.to_multiset(),
    decreases n,
{
    broadcast use vstd::seq_lib::group_to_multiset_ensures;

    if n > 0 {
        let i = n - 1;
        lemma_arranged_permutes(saved, live, i as nat);
        let before = arranged(saved, live, i as nat);
        if exists|j: int| is_next(before.live, saved[i], i, j) {
            let j = choose|j: int| is_next(before.live, saved[i], i, j);
            if j != i {
                lemma_move_permutes(before.live, j, i);
            }
        }
    }
}

proof fn lemma_move_permutes(live: Seq<LiveValue>, from: int, to: int)
    requires
        0 <= to <= from < live.len(),
    ensures
        moved_left(live, from, to).to_multiset() == live.to_multiset(),
        moved_left(live, from, to).len() == live.len(),
{
    broadcast use vstd::seq_lib::group_to_multiset_ensures;

    let without = live.remove(from);
    assert(without.insert(to, live[from]).to_multiset() =~= without.to_multiset().insert(
        live[from],
    ));
    assert(without.to_multiset() =~= live.to_multiset().remove(live[from]));
    assert(live.to_multiset().count(live[from]) > 0) by {
        assert(live.contains(live[from]));
    }
    assert(live.to_multiset().remove(live[from]).insert(live[from]) =~= live.to_multiset());
}

/// Planning only moves windows: none is lost, none is added.
pub proof fn law_planning_only_moves_windows(saved: Seq<Seq<char>>, live: Seq<LiveValue>)
    ensures
        ({
            let a = arranged(saved, live, positions(saved.len(), live.len()));
            a.live.to_multiset() == live.to_multiset()
        }),
{
    lemma_arranged_permutes(saved, live, positions(saved.len(), live.len()));
}

/// Columns that are in order already need no move, and nothing is told of them.
pub proof fn law_columns_in_order_stay(saved: Seq<Seq<char>>, live: Seq<LiveValue>)
    requires
        in_order(saved, live),
    ensures
        ({
            let a = arranged(saved, live, positions(saved.len(), live.len()));
            a.live == live && a.ops.len() == 0 && a.notes.len() == 0
        }),
{
    lemma_in_order_stays(saved, live, positions(saved.len(), live.len()));
}

proof fn lemma_in_order_stays(saved: Seq<Seq<char>>, live: Seq<LiveValue>, n: nat)
    requires
        in_order(saved, live),
        n <= saved.len(),
        n <= live.len(),
    ensures
        arranged(saved, live, n).live == live,
        arranged(saved, live, n).ops.len() == 0,
        arranged(saved, live, n).notes.len() == 0,
    decreases n,
{
    if n > 0 {
        let i = n - 1;
        lemma_in_order_stays(saved, live, i as nat);
        assert(live[i].class == saved[i]);
        assert(is_next(live, saved[i], i, i));
        let j = choose|j: int| is_next(live, saved[i], i, j);
        assert(j == i);
    }
}

/// For every class, as many windows are open as the common columns need.
pub open spec fn all_there(saved: Seq<Seq<char>>, live: Seq<LiveValue>) -> bool {
    tally::enough(
        saved.take(positions(saved.len(), live.len()) as int),
        live_classes(live),
    )
}

proof fn lemma_arranging(saved: Seq<Seq<char>>, live: Seq<LiveValue>, n: nat, both: int)
    requires
        both <= saved.len(),
        both <= live.len(),
        n <= both,
        tally::enough(saved.take(both), live_classes(live)),
    ensures
        ({
            let now = arranged(saved, live, n).live;
            &&& now.len() == live.len()
            &&& forall|i: int| 0 <= i < n ==> (#[trigger] now[i]).class == saved[i]
            &&& tally::enough(saved.subrange(n as int, both), live_classes(now).skip(n as int))
        }),
    decreases n,
{
    if n == 0 {
        assert(saved.subrange(0, both) =~= saved.take(both));
        assert(live_classes(live).skip(0) =~= live_classes(live));
    } else {
        let i = n - 1;
        lemma_arranging(saved, live, i as nat, both);
        let before = arranged(saved, live, i as nat).live;
        let now = arranged(saved, live, n).live;
        let had = live_classes(before).skip(i);
        let want = saved[i];
        let need = saved.subrange(i, both);
        tally::lemma_enough_step(need, had);
        let k0 = choose|k: int| 0 <= k < had.len() && had[k] == want;
        lemma_next_exists(before, want, i, i + k0);
        let j = choose|j: int| is_next(before, want, i, j);
        assert(is_next(before, want, i, j));
        assert(had[j - i] == want);
        assert(now == moved_left(before, j, i)) by {
            assert(j == i ==> moved_left(before, j, i) =~= before);
        }
        assert(need.skip(1) =~= saved.subrange(n as int, both));
        assert(live_classes(now).skip(n as int) =~= had.remove(j - i));
        assert forall|p: int| 0 <= p < n implies (#[trigger] now[p]).class == saved[p] by {
            if p < i {
                assert(now[p] == before[p]);
            }
        }
    }
}

proof fn lemma_next_exists(live: Seq<LiveValue>, class: Seq<char>, from: int, at: int)
    requires
        from <= at < live.len(),
        live[at].class == class,
    ensures
        exists|j: int| is_next(live, class, from, j),
    decreases at - from,
{
    if live[from].class == class {
        assert(is_next(live, class, from, from));
    } else {
        let right = from + 1;
        lemma_next_exists(live, class, right, at);
        let j = choose|j: int| is_next(live, class, right, j);
        assert(is_next(live, class, from, j));
    }
}

/// Where every window that a common column needs is open, the columns come to stand
/// in the saved order, and further windows stand after them.
pub proof fn law_saved_order_is_reached(saved: Seq<Seq<char>>, live: Seq<LiveValue>)
    requires
        all_there(saved, live),
    ensures
        in_order(saved, arranged(saved, live, positions(saved.len(), live.len())).live),
{
    let n = positions(saved.len(), live.len());
    lemma_arranging(saved, live, n, n as int);
}

/// Whether an open window is of `class`.
pub open spec fn is_of(class: Seq<char>) -> spec_fn(LiveValue) -> bool {
    |w: LiveValue| w.class == class
}

/// The open windows of `class`, from left to right.
pub open spec fn of_class(live: Seq<LiveValue>, class: Seq<char>) -> Seq<LiveValue> {
    live.filter(is_of(class))
}

/// The window that saved window `s` stands for: where it is the n-th saved one of
/// its class, the n-th open one of that class.
pub open spec fn counterpart(classes: Seq<Seq<char>>, live: Seq<LiveValue>, s: int) -> Option<
    Seq<char>,
> {
    let own = of_class(live, classes[s]);
    let rank = tally::count_of(classes.take(s), classes[s]);
    if rank < own.len() {
        Some(own[rank as int].address)
    } else {
        None
    }
}

/// The classes that go with widths.
pub open spec fn width_classes<W>(saved: Seq<(Seq<char>, W)>) -> Seq<Seq<char>> {
    saved.map_values(|p: (Seq<char>, W)| p.0)
}

/// The widths of the first `n` saved windows, each for the window that it stands
/// for. A saved window that is not there is passed over.
pub open spec fn assigned<W>(
    saved: Seq<(Seq<char>, W)>,
    live: Seq<LiveValue>,
    n: nat,
) -> Seq<(Seq<char>, W)>
    decreases n,
{
    if n == 0 {
        Seq::empty()
    } else {
        let before = assigned(saved, live, (n - 1) as nat);
        match counterpart(width_classes(saved), live, n - 1) {
            Some(address) => before.push((address, saved[n - 1].1)),
            None => before,
        }
    }
}

/// Classes with widths, as values.
pub open spec fn saved_widths<W>(saved: Seq<(&str, W)>) -> Seq<(Seq<char>, W)> {
    saved.map_values(|p: (&str, W)| (p.0@, p.1))
}

/// Assignments of widths, as values.
pub open spec fn width_values<W>(ops: Seq<(String, W)>) -> Seq<(Seq<char>, W)> {
    ops.map_values(|p: (String, W)| (p.0@, p.1))
}

proof fn lemma_of_class_len(live: Seq<LiveValue>, class: Seq<char>)
    ensures
        of_class(live, class).len() == tally::count_of(live_classes(live), class),
    decreases live.len(),
{
    reveal_with_fuel(Seq::filter, 1);
    if live.len() > 0 {
        lemma_of_class_len(live.drop_last(), class);
        assert(live_classes(live).drop_last() =~= live_classes(live.drop_last()));
    }
}

proof fn lemma_of_class_at(live: Seq<LiveValue>, class: Seq<char>, i: int)
    requires
        0 <= i < live.len(),
        live[i].class == class,
    ensures
        ({
            let rank = tally::count_of(live_classes(live).take(i), class);
            rank < of_class(live, class).len() && of_class(live, class)[rank as int] == live[i]
        }),
    decreases live.len(),
{
    reveal_with_fuel(Seq::filter, 1);
    let front = live.drop_last();
    assert(live_classes(live).take(i) =~= live_classes(front).take(i));
    lemma_of_class_len(front, class);
    if i == live.len() - 1 {
        assert(live_classes(front).take(i) =~= live_classes(front));
    } else {
        lemma_of_class_at(front, class, i);
    }
}

/// The first window of `class` that is not taken yet.
fn find_free(live: &[LiveWindow], used: &Vec<bool>, class: &str) -> (r: Option<usize>)
    requires
        used@.len() == live@.len(),
    ensures
        match r {
            Some(i) => {
                &&& i < live@.len()
                &&& !used@[i as int]
                &&& live@[i as int].class@ == class@
                &&& forall|j: int| 0 <= j < i && (#[trigger] live@[j]).class@ == class@ ==> used@[j]
            },
            None => forall|j: int|
                0 <= j < live@.len() && (#[trigger] live@[j]).class@ == class@ ==> used@[j],
        },
{
    let mut i: usize = 0;
    while i < live.len()
        invariant
            0 <= i <= live@.len(),
            used@.len() == live@.len(),
            forall|j: int| 0 <= j < i && (#[trigger] live@[j]).class@ == class@ ==> used@[j],
        decreases live@.len() - i,
    {
        if !used[i] && text::same(live[i].class.as_str(), class) {
            return Some(i);
        }
        i += 1;
    }
    None
}

/// Whether `used` marks, of every class, the windows that stand for the first `s`
/// saved ones.
spec fn marks_first(
    used: Seq<bool>,
    classes: Seq<Seq<char>>,
    live: Seq<Seq<char>>,
    s: int,
) -> bool {
    &&& used.len() == live.len()
    &&& forall|i: int|
        0 <= i < live.len() ==> (#[trigger] used[i] <==> tally::count_of(live.take(i), live[i])
            < tally::count_of(classes.take(s), live[i]))
}

proof fn lemma_marks_step(
    used: Seq<bool>,
    classes: Seq<Seq<char>>,
    live: Seq<Seq<char>>,
    s: int,
    found: Option<int>,
)
    requires
        marks_first(used, classes, live, s),
        0 <= s < classes.len(),
        match found {
            Some(i) => {
                &&& 0 <= i < live.len()
                &&& !used[i]
                &&& live[i] == classes[s]
                &&& forall|j: int| 0 <= j < i && live[j] == classes[s] ==> #[trigger] used[j]
            },
            None => forall|j: int|
                0 <= j < live.len() && live[j] == classes[s] ==> #[trigger] used[j],
        },
    ensures
        match found {
            Some(i) => {
                &&& marks_first(used.update(i, true), classes, live, s + 1)
                &&& tally::count_of(live.take(i), classes[s]) == tally::count_of(
                    classes.take(s),
                    classes[s],
                )
            },
            None => {
                &&& marks_first(used, classes, live, s + 1)
                &&& tally::count_of(live, classes[s]) <= tally::count_of(
                    classes.take(s),
                    classes[s],
                )
            },
        },
{
    let class = classes[s];
    let rank = tally::count_of(classes.take(s), class);
    let end = match found {
        Some(i) => i,
        None => live.len() as int,
    };
    if tally::count_of(live.take(end), class) > rank {
        let j = tally::lemma_last_before(live, end, class);
        assert(used[j]);
        assert(false);
    }
    assert(live.take(live.len() as int) =~= live);
    let now = match found {
        Some(i) => used.update(i, true),
        None => used,
    };
    assert forall|i: int| 0 <= i < live.len() implies (#[trigger] now[i] <==> tally::count_of(
        live.take(i),
        live[i],
    ) < tally::count_of(classes.take(s + 1), live[i])) by {
        tally::lemma_count_step(classes, s, live[i]);
        if live[i] == class {
            match found {
                Some(k) => {
                    if i < k {
                        assert(used[i]);
                    } else if i > k {
                        tally::lemma_count_step(live, k, class);
                        tally::lemma_count_grows(live, k + 1, i, class);
                        assert(!used[i]);
                    }
                },
                None => {
                    assert(used[i]);
                },
            }
        } else {
            assert(now[i] == used[i]);
        }
    }
}

/// Pairs each saved window with an open window of the same class, from left to
/// right, and returns for each pair the address and the width to apply.
///
/// Pairing by class and not by position keeps the widths with the right columns
/// where a window is missing: its saved width is passed over and no other width
/// moves.
pub fn plan_width_assignments<W: Copy>(saved: &[(&str, W)], live: &[LiveWindow]) -> (r: Vec<
    (String, W),
>)
    ensures
        width_values(r@) == assigned(saved_widths(saved@), live_values(live@), saved@.len()),
{
    let ghost values = live_values(live@);
    let ghost pairs = saved_widths(saved@);
    let ghost classes = width_classes(pairs);
    let ghost open = live_classes(values);
    let mut used: Vec<bool> = Vec::new();
    let mut n: usize = 0;
    while n < live.len()
        invariant
            0 <= n <= live@.len(),
            used@.len() == n,
            forall|i: int| 0 <= i < n ==> !(#[trigger] used@[i]),
        decreases live@.len() - n,
    {
        used.push(false);
        n += 1;
    }
    let mut ops: Vec<(String, W)> = Vec::new();
    let mut s: usize = 0;
    proof {
        assert(classes.take(0) =~= Seq::<Seq<char>>::empty());
        assert(marks_first(used@, classes, open, 0));
        assert(width_values(ops@) =~= assigned(pairs, values, 0));
    }
    while s < saved.len()
        invariant
            0 <= s <= saved@.len(),
            values == live_values(live@),
            pairs == saved_widths(saved@),
            classes == width_classes(pairs),
            open == live_classes(values),
            marks_first(used@, classes, open, s as int),
            width_values(ops@) == assigned(pairs, values, s as nat),
        decreases saved@.len() - s,
    {
        let class: &str = saved[s].0;
        let width: W = saved[s].1;
        let free: Option<usize> = find_free(live, &used, class);
        proof {
            assert(classes[s as int] == class@);
            assert(pairs[s as int].1 == width);
            assert forall|j: int| 0 <= j < live@.len() implies open[j] == (
            #[trigger] live@[j]).class@ by {
                assert(values[j] == live@[j]@);
            }
            let found: Option<int> = match free {
                Some(i) => Some(i as int),
                None => None,
            };
            assert forall|j: int|
                0 <= j < live@.len() && open[j] == class@ && (found matches Some(i) ==> j
                    < i) implies #[trigger] used@[j] by {
                assert(live@[j].class@ == class@);
            }
            lemma_marks_step(used@, classes, open, s as int, found);
            lemma_of_class_len(values, class@);
        }
        if let Some(i) = free {
            let ghost was = width_values(ops@);
            proof {
                assert(values[i as int] == live@[i as int]@);
                lemma_of_class_at(values, class@, i as int);
            }
            used.set(i, true);
            let address: String = live[i].address.clone();
            ops.push((address, width));
            assert(width_values(ops@) =~= was.push((address@, width)));
        }
        s += 1;
    }
    ops
}

/// A window that is missing, or one too many, changes nothing for the other
/// classes: what a saved window stands for depends on the open windows of its own
/// class alone.
pub proof fn law_other_classes_do_not_shift_widths(
    classes: Seq<Seq<char>>,
    live: Seq<LiveValue>,
    other: Seq<LiveValue>,
    s: int,
)
    requires
        0 <= s < classes.len(),
        of_class(live, classes[s]) == of_class(other, classes[s]),
    ensures
        counterpart(classes, live, s) == counterpart(classes, other, s),
{
}

/// A saved window stands for an open window of its own class.
pub proof fn law_widths_go_to_their_class(
    classes: Seq<Seq<char>>,
    live: Seq<LiveValue>,
    s: int,
)
    requires
        0 <= s < classes.len(),
        counterpart(classes, live, s) is Some,
    ensures
        exists|i: int|
            0 <= i < live.len() && (#[trigger] live[i]).class == classes[s] && live[i].address
                == counterpart(classes, live, s)->0,
{
    let rank = tally::count_of(classes.take(s), classes[s]) as int;
    lemma_of_class_from(live, classes[s], rank);
}

proof fn lemma_of_class_from(live: Seq<LiveValue>, class: Seq<char>, k: int) -> (i: int)
    requires
        0 <= k < of_class(live, class).len(),
    ensures
        0 <= i < live.len(),
        live[i] == of_class(live, class)[k],
        live[i].class == class,
        tally::count_of(live_classes(live).take(i), class) == k,
    decreases live.len(),
{
    reveal_with_fuel(Seq::filter, 1);
    let front = live.drop_last();
    if k < of_class(front, class).len() {
        let i = lemma_of_class_from(front, class, k);
        assert(live_classes(live).take(i) =~= live_classes(front).take(i));
        i
    } else {
        let i = live.len() - 1;
        lemma_of_class_len(front, class);
        assert(live_classes(live).take(i) =~= live_classes(front));
        i
    }
}

/// No two saved windows stand for the same open window.
pub proof fn law_widths_go_to_different_windows(
    classes: Seq<Seq<char>>,
    live: Seq<LiveValue>,
    s: int,
    t: int,
)
    requires
        0 <= s < t < classes.len(),
        distinct_addresses(live),
        counterpart(classes, live, s) is Some,
        counterpart(classes, live, t) is Some,
    ensures
        counterpart(classes, live, s) != counterpart(classes, live, t),
{
    let ks = tally::count_of(classes.take(s), classes[s]) as int;
    let kt = tally::count_of(classes.take(t), classes[t]) as int;
    let i = lemma_of_class_from(live, classes[s], ks);
    let j = lemma_of_class_from(live, classes[t], kt);
    if i == j {
        tally::lemma_count_step(classes, s, classes[s]);
        tally::lemma_count_grows(classes, s + 1, t, classes[s]);
    } else if i < j {
        assert(live[i].address != live[j].address);
    } else {
        assert(live[j].address != live[i].address);
    }
}

proof fn lemma_move_keeps_class_order(live: Seq<LiveValue>, from: int, to: int, class: Seq<char>)
    requires
        0 <= to <= from < live.len(),
        forall|k: int| to <= k < from ==> (#[trigger] live[k]).class != live[from].class,
    ensures
        of_class(moved_left(live, from, to), class) == of_class(live, class),
{
    let f = is_of(class);
    let a = live.take(to);
    let b = live.subrange(to, from);
    let x = seq![live[from]];
    let c = live.skip(from + 1);
    assert(live =~= a + b + x + c);
    assert(moved_left(live, from, to) =~= a + x + b + c);
    Seq::filter_distributes_over_add(a, b, f);
    Seq::filter_distributes_over_add(a + b, x, f);
    Seq::filter_distributes_over_add(a + b + x, c, f);
    Seq::filter_distributes_over_add(a, x, f);
    Seq::filter_distributes_over_add(a + x, b, f);
    Seq::filter_distributes_over_add(a + x + b, c, f);
    reveal_with_fuel(Seq::filter, 2);
    assert(x.drop_last() =~= Seq::<LiveValue>::empty());
    if live[from].class == class {
        b.lemma_all_neg_filter_empty(f);
        assert(a.filter(f) + b.filter(f) + x.filter(f) =~= a.filter(f) + x.filter(f) + b.filter(f));
    } else {
        assert(x.filter(f) =~= Seq::<LiveValue>::empty());
        assert(a.filter(f) + b.filter(f) + x.filter(f) =~= a.filter(f) + x.filter(f) + b.filter(f));
    }
}

/// Windows of one class keep their order among themselves.
pub proof fn law_windows_of_a_class_keep_their_order(
    saved: Seq<Seq<char>>,
    live: Seq<LiveValue>,
    n: nat,
    class: Seq<char>,
)
    requires
        n <= saved.len(),
        n <= live.len(),
    ensures
        of_class(arranged(saved, live, n).live, class) == of_class(live, class),
        arranged(saved, live, n).live.len() == live.len(),
    decreases n,
{
    if n > 0 {
        let i = n - 1;
        law_windows_of_a_class_keep_their_order(saved, live, i as nat, class);
        let before = arranged(saved, live, i as nat).live;
        if exists|j: int| is_next(before, saved[i], i, j) {
            let j = choose|j: int| is_next(before, saved[i], i, j);
            assert(is_next(before, saved[i], i, j));
            if j != i {
                lemma_move_keeps_class_order(before, j, i, class);
            }
        }
    }
}

/// A position is left unfilled only where no window of the class that was saved there
/// stands at it or right of it.
pub proof fn law_found_windows_are_placed(
    saved: Seq<Seq<char>>,
    live: Seq<LiveValue>,
    n: nat,
    i: int,
    j: int,
)
    requires
        n <= saved.len(),
        n <= live.len(),
        0 <= i < n,
        i <= j < live.len(),
    ensures
        ({
            let now = arranged(saved, live, n).live;
            now.len() == live.len() && (now[j].class == saved[i] ==> now[i].class == saved[i])
        }),
    decreases n,
{
    let m = n - 1;
    let before = arranged(saved, live, m as nat).live;
    let now = arranged(saved, live, n).live;
    law_windows_of_a_class_keep_their_order(saved, live, n, saved[i]);
    law_windows_of_a_class_keep_their_order(saved, live, m as nat, saved[i]);
    if exists|k: int| is_next(before, saved[m], m, k) {
        let k = choose|k: int| is_next(before, saved[m], m, k);
        assert(is_next(before, saved[m], m, k));
        if k != m {
            assert(now == moved_left(before, k, m));
        }
        if i < m {
            assert(now[i] == before[i]);
            let origin = if k == m || j < m || j > k {
                j
            } else if j == m {
                k
            } else {
                j - 1
            };
            assert(now[j] == before[origin]);
            law_found_windows_are_placed(saved, live, m as nat, i, origin);
        } else {
            assert(now[m].class == saved[m]);
        }
    } else {
        assert(now == before);
        if i < m {
            law_found_windows_are_placed(saved, live, m as nat, i, j);
        } else if before[j].class == saved[m] {
            lemma_next_exists(before, saved[m], m, j);
        }
    }
}

/// Saved windows of one class stand for open windows from left to right, and for as
/// many as there are.
pub proof fn law_widths_are_given_from_left_to_right(
    classes: Seq<Seq<char>>,
    live: Seq<LiveValue>,
    s: int,
)
    requires
        0 <= s < classes.len(),
    ensures
        ({
            let rank = tally::count_of(classes.take(s), classes[s]) as int;
            &&& counterpart(classes, live, s) is Some <==> rank < tally::count_of(
                live_classes(live),
                classes[s],
            )
            &&& forall|i: int|
                0 <= i < live.len() && (#[trigger] live[i]).class == classes[s] && tally::count_of(
                    live_classes(live).take(i),
                    classes[s],
                ) == rank ==> counterpart(classes, live, s) == Some(live[i].address)
        }),
{
    let rank = tally::count_of(classes.take(s), classes[s]) as int;
    lemma_of_class_len(live, classes[s]);
    assert forall|i: int|
        0 <= i < live.len() && (#[trigger] live[i]).class == classes[s] && tally::count_of(
            live_classes(live).take(i),
            classes[s],
        ) == rank implies counterpart(classes, live, s) == Some(live[i].address) by {
        lemma_of_class_at(live, classes[s], i);
    }
}

/// Each saved window in turn gives its own width to the window that it stands for, or
/// none where it stands for none.
pub proof fn law_each_width_goes_once<W>(
    saved: Seq<(Seq<char>, W)>,
    live: Seq<LiveValue>,
    n: nat,
)
    requires
        n < saved.len(),
    ensures
        ({
            let before = assigned(saved, live, n);
            let now = assigned(saved, live, n + 1);
            &&& assigned(saved, live, 0).len() == 0
            &&& match counterpart(width_classes(saved), live, n as int) {
                Some(address) => now.len() == before.len() + 1 && now.drop_last() == before
                    && now.last().0 == address && now.last().1 == saved[n as int].1,
                None => now == before,
            }
            &&& width_classes(saved)[n as int] == saved[n as int].0
        }),
{
    let before = assigned(saved, live, n);
    if let Some(address) = counterpart(width_classes(saved), live, n as int) {
        assert(before.push((address, saved[n as int].1)).drop_last() =~= before);
    }
}

/// What is told of the columns gives the class and the positions, and how far the
/// window is moved.
pub proof fn law_moves_are_told(class: Seq<char>, from: nat, to: nat)
    requires
        to <= from,
    ensures
        text::begins(
            moved_note(class, from, to),
            "  reorder: bubble "@ + class + " from col "@ + text::decimal(from) + " → "@
                + text::decimal(to),
        ),
        text::ends(
            moved_note(class, from, to),
            " ("@ + text::decimal((from - to) as nat) + " swap(s))"@,
        ),
        missing_note(class, to) == "  reorder: no "@ + class + " found after position "@
            + text::decimal(to) + ", skipping"@,
{
    let head = "  reorder: bubble "@ + class + " from col "@ + text::decimal(from) + " → "@
        + text::decimal(to);
    let tail = " ("@ + text::decimal((from - to) as nat) + " swap(s))"@;
    assert(moved_note(class, from, to) =~= head + tail);
}

/// Each position that is filled by a move, or cannot be filled, is told, and a
/// position whose window is there already is not.
pub proof fn law_each_step_is_told(saved: Seq<Seq<char>>, live: Seq<LiveValue>, n: nat)
    requires
        n < saved.len(),
        n < live.len(),
    ensures
        ({
            let before = arranged(saved, live, n);
            let now = arranged(saved, live, n + 1);
            let j = choose|j: int| is_next(before.live, saved[n as int], n as int, j);
            let found = exists|j: int| is_next(before.live, saved[n as int], n as int, j);
            &&& !found ==> now.live == before.live && now.ops == before.ops && now.notes
                == before.notes.push(missing_note(saved[n as int], n))
            &&& found && j == n ==> now == before
            &&& found && j != n ==> now.ops == before.ops.push(
                (before.live[j].address, (j - n) as nat),
            ) && now.notes == before.notes.push(moved_note(saved[n as int], j as nat, n))
                && now.live[n as int] == before.live[j]
        }),
{
    let before = arranged(saved, live, n);
    let j = choose|j: int| is_next(before.live, saved[n as int], n as int, j);
    if exists|j: int| is_next(before.live, saved[n as int], n as int, j) {
        assert(is_next(before.live, saved[n as int], n as int, j));
    }
}

} // verus!
