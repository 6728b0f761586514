//! What a restore tells the user.

use vstd::prelude::*;

use crate::text;

verus! {

/// Told at the start.
pub open spec fn restoring_text(name: Seq<char>, only: Option<i32>) -> Seq<char> {
    "restoring '"@ + name + "'"@ + match only {
        Some(id) => " (workspace "@ + text::signed_decimal(id as int) + " only)"@,
        None => ""@,
    }
}

pub(crate) fn restoring(name: &str, only: Option<i32>) -> (r: String)
    ensures
        r@ == restoring_text(name@, only),
{
    let scope: String = match only {
        Some(id) => {
            let number: String = text::i32_text(id);
            text::join3(" (workspace ", number.as_str(), " only)")
        },
        None => "".to_owned(),
    };
    let head: String = text::join3("restoring '", name, "'");
    text::join2(head.as_str(), scope.as_str())
}

/// Told when a workspace is begun.
pub open spec fn workspace_text(id: i32, windows: nat) -> Seq<char> {
    "restoring workspace "@ + text::signed_decimal(id as int) + " ("@ + text::decimal(windows)
        + " windows)"@
}

pub(crate) fn workspace(id: i32, windows: usize) -> (r: String)
    ensures
        r@ == workspace_text(id, windows as nat),
{
    let number: String = text::i32_text(id);
    let count: String = text::usize_text(windows);
    let head: String = text::join3("restoring workspace ", number.as_str(), " (");
    text::join3(head.as_str(), count.as_str(), " windows)")
}

/// Shown on the overlay when a workspace is begun.
pub open spec fn overlay_text(current: nat, total: nat) -> Seq<char> {
    "restoring workspace "@ + text::decimal(current) + " / "@ + text::decimal(total) + "\n"@
}

pub(crate) fn overlay(current: usize, total: usize) -> (r: String)
    ensures
        r@ == overlay_text(current as nat, total as nat),
{
    let current: String = text::usize_text(current);
    let total: String = text::usize_text(total);
    let head: String = text::join3("restoring workspace ", current.as_str(), " / ");
    text::join3(head.as_str(), total.as_str(), "\n")
}

/// Told where nothing launches a class.
pub open spec fn no_binary_text(class: Seq<char>, exe: Seq<char>) -> Seq<char> {
    "could not restore \""@ + class + "\" — binary \""@ + exe
        + "\" not found and no matching .desktop entry, skipping"@
}

pub(crate) fn no_binary(class: &str, exe: &str) -> (r: String)
    ensures
        r@ == no_binary_text(class@, exe@),
{
    let head: String = text::join3("could not restore \"", class, "\" — binary \"");
    text::join3(
        head.as_str(),
        exe,
        "\" not found and no matching .desktop entry, skipping",
    )
}

/// Told where an app that restores itself did not start.
pub open spec fn spawn_failed_text(
    class: Seq<char>,
    program: Seq<char>,
    e: Seq<char>,
) -> Seq<char> {
    "could not restore \""@ + class + "\" — failed to spawn "@ + program + ": "@ + e
        + ", skipping"@
}

pub(crate) fn spawn_failed(class: &str, program: &str, e: &str) -> (r: String)
    ensures
        r@ == spawn_failed_text(class@, program@, e@),
{
    let head: String = text::join3("could not restore \"", class, "\" — failed to spawn ");
    let head: String = text::join3(head.as_str(), program, ": ");
    text::join3(head.as_str(), e, ", skipping")
}

/// The number of a launch among those that are needed.
pub open spec fn launch_text(n: nat, needed: nat) -> Seq<char> {
    " (launch "@ + text::decimal(n) + "/"@ + text::decimal(needed) + ")"@
}

fn launch(n: usize, needed: usize) -> (r: String)
    ensures
        r@ == launch_text(n as nat, needed as nat),
{
    let n: String = text::usize_text(n);
    let needed: String = text::usize_text(needed);
    let head: String = text::join3(" (launch ", n.as_str(), "/");
    text::join3(head.as_str(), needed.as_str(), ")")
}

/// Told where one launch of an app failed.
pub open spec fn launch_failed_text(
    class: Seq<char>,
    n: nat,
    needed: nat,
    program: Seq<char>,
    e: Seq<char>,
) -> Seq<char> {
    "could not restore \""@ + class + "\""@ + launch_text(n, needed) + " — failed to spawn "@
        + program + ": "@ + e + ", skipping"@
}

pub(crate) fn launch_failed(class: &str, n: usize, needed: usize, program: &str, e: &str) -> (r: String)
    ensures
        r@ == launch_failed_text(class@, n as nat, needed as nat, program@, e@),
{
    let number: String = launch(n, needed);
    let head: String = text::join3("could not restore \"", class, "\"");
    let head: String = text::join3(head.as_str(), number.as_str(), " — failed to spawn ");
    let head: String = text::join3(head.as_str(), program, ": ");
    text::join3(head.as_str(), e, ", skipping")
}

/// Told where a launched app opened no window.
pub open spec fn timeout_text(class: Seq<char>, n: nat, needed: nat) -> Seq<char> {
    "  TIMEOUT waiting for "@ + class + launch_text(n, needed)
}

pub(crate) fn timeout(class: &str, n: usize, needed: usize) -> (r: String)
    ensures
        r@ == timeout_text(class@, n as nat, needed as nat),
{
    let number: String = launch(n, needed);
    text::join3("  TIMEOUT waiting for ", class, number.as_str())
}

/// Told where a workspace could not be restored.
pub open spec fn workspace_failed_text(id: i32, e: Seq<char>) -> Seq<char> {
    "workspace "@ + text::signed_decimal(id as int) + " failed: "@ + e
        + " — continuing with remaining workspaces"@
}

pub(crate) fn workspace_failed(id: i32, e: &str) -> (r: String)
    ensures
        r@ == workspace_failed_text(id, e@),
{
    let number: String = text::i32_text(id);
    let head: String = text::join3("workspace ", number.as_str(), " failed: ");
    text::join3(head.as_str(), e, " — continuing with remaining workspaces")
}

/// Told where the sweep for stray windows failed.
pub open spec fn sweep_failed_text(e: Seq<char>) -> Seq<char> {
    "stray-window sweep failed: "@ + e
}

/// Told where the last workspace could not be focused.
pub open spec fn refocus_failed_text(e: Seq<char>) -> Seq<char> {
    "could not refocus workspace: "@ + e
}

/// Told where there is no session to restore.
pub open spec fn missing_session_text(path: Seq<char>) -> Seq<char> {
    "no session file at "@ + path + " — run 'hypr-recall save' first"@
}

/// The message that there is no session to restore.
pub fn missing_session(path: &str) -> (r: String)
    ensures
        r@ == missing_session_text(path@),
{
    text::join3("no session file at ", path, " — run 'hypr-recall save' first")
}

/// Told where the session does not have the workspace that is asked for.
pub open spec fn not_found_text(id: i32, name: Option<Seq<char>>) -> Seq<char> {
    "workspace "@ + text::signed_decimal(id as int) + " not found in session"@ + match name {
        Some(n) => " '"@ + n + "'"@,
        None => ""@,
    }
}

pub(crate) fn not_found(id: i32, name: Option<&str>) -> (r: String)
    ensures
        r@ == not_found_text(
            id,
            match name {
                Some(n) => Some(n@),
                None => None,
            },
        ),
{
    let number: String = text::i32_text(id);
    let head: String = text::join3("workspace ", number.as_str(), " not found in session");
    let tail: String = match name {
        Some(n) => text::join3(" '", n, "'"),
        None => "".to_owned(),
    };
    text::join2(head.as_str(), tail.as_str())
}

/// Tells of a class whose windows are all open.
pub open spec fn covered_text(class: Seq<char>, saved: nat) -> Seq<char> {
    "  "@ + class + ": skipped (pre-existing covers all "@ + text::decimal(saved) + ")"@
}

pub(crate) fn covered(class: &str, saved: usize) -> (r: String)
    ensures
        r@ == covered_text(class@, saved as nat),
{
    let saved: String = text::usize_text(saved);
    let head: String = text::join3("  ", class, ": skipped (pre-existing covers all ");
    text::join3(head.as_str(), saved.as_str(), ")")
}

/// Tells of a class that is going to be launched.
pub open spec fn counts_text(
    class: Seq<char>,
    saved: nat,
    pre: nat,
    needed: nat,
    before: nat,
) -> Seq<char> {
    "  "@ + class + ": saved="@ + text::decimal(saved) + " pre="@ + text::decimal(pre)
        + " needed="@ + text::decimal(needed) + " before="@ + text::decimal(before)
}

pub(crate) fn counts(class: &str, saved: usize, pre: usize, needed: usize, before: usize) -> (r:
    String)
    ensures
        r@ == counts_text(class@, saved as nat, pre as nat, needed as nat, before as nat),
{
    let saved: String = text::usize_text(saved);
    let pre: String = text::usize_text(pre);
    let needed: String = text::usize_text(needed);
    let before: String = text::usize_text(before);
    let head: String = text::join3("  ", class, ": saved=");
    let head: String = text::join3(head.as_str(), saved.as_str(), " pre=");
    let head: String = text::join3(head.as_str(), pre.as_str(), " needed=");
    let head: String = text::join3(head.as_str(), needed.as_str(), " before=");
    text::join2(head.as_str(), before.as_str())
}

/// Tells of the windows that an app which restores itself has opened.
pub open spec fn appeared_text(
    class: Seq<char>,
    got: nat,
    needed: nat,
    total: nat,
    converged: bool,
) -> Seq<char> {
    "  "@ + class + ": "@ + text::decimal(got) + "/"@ + text::decimal(needed)
        + " windows appeared (total: "@ + text::decimal(total) + ")"@ + (if converged {
        ""@
    } else {
        " — timed out"@
    })
}

pub(crate) fn appeared(class: &str, got: usize, needed: usize, total: usize, converged: bool) -> (r:
    String)
    ensures
        r@ == appeared_text(class@, got as nat, needed as nat, total as nat, converged),
{
    let got: String = text::usize_text(got);
    let needed: String = text::usize_text(needed);
    let total: String = text::usize_text(total);
    let ending: &str = if converged {
        ""
    } else {
        " — timed out"
    };
    let head: String = text::join3("  ", class, ": ");
    let head: String = text::join3(head.as_str(), got.as_str(), "/");
    let head: String = text::join3(head.as_str(), needed.as_str(), " windows appeared (total: ");
    let head: String = text::join3(head.as_str(), total.as_str(), ")");
    text::join2(head.as_str(), ending)
}

/// Tells of a launch that is not made, as enough windows are open.
pub open spec fn already_text(class: Seq<char>, n: nat, needed: nat, current: nat) -> Seq<char> {
    "  "@ + class + " launch "@ + text::decimal(n) + "/"@ + text::decimal(needed)
        + ": already at "@ + text::decimal(current)
}

pub(crate) fn already(class: &str, n: usize, needed: usize, current: usize) -> (r: String)
    ensures
        r@ == already_text(class@, n as nat, needed as nat, current as nat),
{
    let n: String = text::usize_text(n);
    let needed: String = text::usize_text(needed);
    let current: String = text::usize_text(current);
    let head: String = text::join3("  ", class, " launch ");
    let head: String = text::join3(head.as_str(), n.as_str(), "/");
    let head: String = text::join3(head.as_str(), needed.as_str(), ": already at ");
    text::join2(head.as_str(), current.as_str())
}

/// What is told at the start names the session, and the workspace where only one is
/// restored.
pub proof fn law_start_names_the_session(name: Seq<char>, id: i32)
    ensures
        restoring_text(name, None) == "restoring '"@ + name + "'"@,
        restoring_text(name, Some(id)) == "restoring '"@ + name + "' (workspace "@
            + text::signed_decimal(id as int) + " only)"@,
{
    reveal_strlit("");
    reveal_strlit("'");
    reveal_strlit(" (workspace ");
    reveal_strlit("' (workspace ");
    assert(restoring_text(name, None) =~= "restoring '"@ + name + "'"@);
    assert(restoring_text(name, Some(id)) =~= "restoring '"@ + name + "' (workspace "@
        + text::signed_decimal(id as int) + " only)"@);
}

/// What is told of a workspace gives its id and the number of its windows; the overlay
/// counts the workspaces.
pub proof fn law_workspaces_are_counted(id: i32, windows: nat, current: nat, total: nat)
    ensures
        text::begins(
            workspace_text(id, windows),
            "restoring workspace "@ + text::signed_decimal(id as int),
        ),
        text::ends(workspace_text(id, windows), "("@ + text::decimal(windows) + " windows)"@),
        text::begins(
            overlay_text(current, total),
            "restoring workspace "@ + text::decimal(current) + " / "@ + text::decimal(total),
        ),
        text::ends(overlay_text(current, total), "\n"@),
{
    reveal_strlit(" (");
    reveal_strlit("(");
    let x = workspace_text(id, windows);
    let head = "restoring workspace "@ + text::signed_decimal(id as int);
    let tail = "("@ + text::decimal(windows) + " windows)"@;
    assert(x =~= head + x.skip(head.len() as int));
    assert(x =~= x.take(x.len() - tail.len()) + tail);
    let y = overlay_text(current, total);
    let first = "restoring workspace "@ + text::decimal(current) + " / "@ + text::decimal(total);
    assert(y =~= first + "\n"@);
}

/// A warning on a class names it, and says what went wrong with which program.
pub proof fn law_warnings_name_class_and_program(
    class: Seq<char>,
    exe: Seq<char>,
    program: Seq<char>,
    e: Seq<char>,
    n: nat,
    needed: nat,
)
    ensures
        text::begins(
            no_binary_text(class, exe),
            "could not restore \""@ + class + "\" — binary \""@ + exe + "\" not found"@,
        ),
        text::begins(
            spawn_failed_text(class, program, e),
            "could not restore \""@ + class + "\" — failed to spawn "@ + program + ": "@ + e,
        ),
        text::begins(
            launch_failed_text(class, n, needed, program, e),
            "could not restore \""@ + class + "\" (launch "@ + text::decimal(n) + "/"@
                + text::decimal(needed) + ")"@,
        ),
        text::ends(
            launch_failed_text(class, n, needed, program, e),
            "failed to spawn "@ + program + ": "@ + e + ", skipping"@,
        ),
        timeout_text(class, n, needed) == "  TIMEOUT waiting for "@ + class + " (launch "@
            + text::decimal(n) + "/"@ + text::decimal(needed) + ")"@,
{
    reveal_strlit("\" not found");
    reveal_strlit("\" not found and no matching .desktop entry, skipping");
    reveal_strlit("\"");
    reveal_strlit(" (launch ");
    reveal_strlit("\" (launch ");
    reveal_strlit(" — failed to spawn ");
    reveal_strlit("failed to spawn ");
    let a = no_binary_text(class, exe);
    let a0 = "could not restore \""@ + class + "\" — binary \""@ + exe + "\" not found"@;
    assert(a =~= a0 + a.skip(a0.len() as int));
    let b = spawn_failed_text(class, program, e);
    let b0 = "could not restore \""@ + class + "\" — failed to spawn "@ + program + ": "@ + e;
    assert(b =~= b0 + b.skip(b0.len() as int));
    let c = launch_failed_text(class, n, needed, program, e);
    let c0 = "could not restore \""@ + class + "\" (launch "@ + text::decimal(n) + "/"@
        + text::decimal(needed) + ")"@;
    let c1 = "failed to spawn "@ + program + ": "@ + e + ", skipping"@;
    assert(c =~= c0 + c.skip(c0.len() as int));
    assert(c =~= c.take(c.len() - c1.len()) + c1);
    assert(timeout_text(class, n, needed) =~= "  TIMEOUT waiting for "@ + class + " (launch "@
        + text::decimal(n) + "/"@ + text::decimal(needed) + ")"@);
}

/// A failure is told as it is, with the workspace it is of.
pub proof fn law_failures_are_told(id: i32, e: Seq<char>, path: Seq<char>, name: Seq<char>)
    ensures
        text::begins(
            workspace_failed_text(id, e),
            "workspace "@ + text::signed_decimal(id as int) + " failed: "@ + e,
        ),
        sweep_failed_text(e) == "stray-window sweep failed: "@ + e,
        refocus_failed_text(e) == "could not refocus workspace: "@ + e,
        text::begins(missing_session_text(path), "no session file at "@ + path),
        text::begins(
            not_found_text(id, Some(name)),
            "workspace "@ + text::signed_decimal(id as int) + " not found in session"@,
        ),
        text::ends(not_found_text(id, Some(name)), "'"@ + name + "'"@),
        not_found_text(id, None) == "workspace "@ + text::signed_decimal(id as int)
            + " not found in session"@,
{
    reveal_strlit("");
    reveal_strlit("'");
    reveal_strlit(" '");
    let a = workspace_failed_text(id, e);
    let a0 = "workspace "@ + text::signed_decimal(id as int) + " failed: "@ + e;
    assert(a =~= a0 + a.skip(a0.len() as int));
    let b = missing_session_text(path);
    let b0 = "no session file at "@ + path;
    assert(b =~= b0 + b.skip(b0.len() as int));
    let c = not_found_text(id, Some(name));
    let c0 = "workspace "@ + text::signed_decimal(id as int) + " not found in session"@;
    let c1 = "'"@ + name + "'"@;
    assert(c =~= c0 + c.skip(c0.len() as int));
    assert(c =~= c.take(c.len() - c1.len()) + c1);
    assert(not_found_text(id, None) =~= c0);
}

/// Diagnostics give the class and all the numbers, each in its place.
pub proof fn law_diagnostics_give_the_numbers(
    class: Seq<char>,
    a: nat,
    b: nat,
    c: nat,
    d: nat,
    converged: bool,
)
    ensures
        covered_text(class, a) == "  "@ + class + ": skipped (pre-existing covers all "@
            + text::decimal(a) + ")"@,
        text::ends(
            counts_text(class, a, b, c, d),
            class + ": saved="@ + text::decimal(a) + " pre="@ + text::decimal(b) + " needed="@
                + text::decimal(c) + " before="@ + text::decimal(d),
        ),
        text::begins(
            appeared_text(class, a, b, c, converged),
            "  "@ + class + ": "@ + text::decimal(a) + "/"@ + text::decimal(b),
        ),
        text::ends(
            appeared_text(class, a, b, c, true),
            "(total: "@ + text::decimal(c) + ")"@,
        ),
        text::ends(
            appeared_text(class, a, b, c, false),
            "(total: "@ + text::decimal(c) + ") — timed out"@,
        ),
        already_text(class, a, b, c) == "  "@ + class + " launch "@ + text::decimal(a) + "/"@
            + text::decimal(b) + ": already at "@ + text::decimal(c),
{
    reveal_strlit("");
    reveal_strlit(")");
    reveal_strlit(" — timed out");
    reveal_strlit(") — timed out");
    reveal_strlit("(total: ");
    reveal_strlit(" windows appeared (total: ");
    let x = counts_text(class, a, b, c, d);
    let x0 = class + ": saved="@ + text::decimal(a) + " pre="@ + text::decimal(b) + " needed="@
        + text::decimal(c) + " before="@ + text::decimal(d);
    assert(x =~= "  "@ + x0);
    let y = appeared_text(class, a, b, c, converged);
    let y0 = "  "@ + class + ": "@ + text::decimal(a) + "/"@ + text::decimal(b);
    assert(y =~= y0 + y.skip(y0.len() as int));
    let t = appeared_text(class, a, b, c, true);
    let t0 = "(total: "@ + text::decimal(c) + ")"@;
    assert(t =~= t.take(t.len() - t0.len()) + t0);
    let f = appeared_text(class, a, b, c, false);
    let f0 = "(total: "@ + text::decimal(c) + ") — timed out"@;
    assert(f =~= f.take(f.len() - f0.len()) + f0);
}

} // verus!
