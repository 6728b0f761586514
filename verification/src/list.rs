//! Listing the saved sessions.

use vstd::prelude::*;

use crate::order::{self, Ranked, Sortable};
use crate::session::{self, Session};
use crate::text;

verus! {

/// A file in the directory of the sessions.
pub struct DirFile<P> {
    /// The name without its extension.
    pub stem: Option<String>,
    pub extension: Option<String>,
    pub path: P,
    /// When the file was last changed, in nanoseconds on the clock of the caller.
    pub modified: Option<i64>,
}

/// A saved session.
pub struct Listed<P> {
    pub name: String,
    pub path: P,
    pub modified: i64,
}

impl<P> Ranked for Listed<P> {
    open spec fn rank(&self) -> int {
        -self.modified
    }
}

impl<P> Sortable for Listed<P> {
    fn ranks_after(&self, other: &Self) -> (r: bool) {
        self.modified < other.modified
    }
}

/// Whether a file is a saved session: it is called `<name>.json`, and it is known
/// when it was changed. The lock of a restore has another extension.
pub open spec fn is_session<P>() -> spec_fn(DirFile<P>) -> bool {
    |f: DirFile<P>|
        {
            &&& f.stem is Some
            &&& f.extension matches Some(extension)
            &&& extension@ == "json"@
            &&& f.modified is Some
        }
}

/// A session in the list.
pub open spec fn listed<P>() -> spec_fn(DirFile<P>) -> Listed<P> {
    |f: DirFile<P>| Listed { name: f.stem->0, path: f.path, modified: f.modified->0 }
}

/// The sessions in a directory, those changed last first.
pub open spec fn sessions_in<P>(files: Seq<DirFile<P>>) -> Seq<Listed<P>> {
    order::sorted(files.filter(is_session()).map_values(listed()))
}

fn session_file<P>(file: DirFile<P>) -> (r: Option<Listed<P>>)
    ensures
        match r {
            Some(l) => is_session()(file) && l == listed()(file),
            None => !is_session()(file),
        },
{
    match (file.stem, file.extension, file.modified) {
        (Some(name), Some(extension), Some(modified)) => {
            if text::same(extension.as_str(), "json") {
                Some(Listed { name, path: file.path, modified })
            } else {
                None
            }
        },
        _ => None,
    }
}

/// Finds the sessions in a directory, those changed last first. `None` stands for
/// a directory that does not exist; like one without sessions it gives none.
pub fn run<P>(dir: Option<Vec<DirFile<P>>>) -> (r: Vec<Listed<P>>)
    ensures
        r@ == (match dir {
            Some(files) => sessions_in(files@),
            None => Seq::empty(),
        }),
{
    let mut files: Vec<DirFile<P>> = match dir {
        Some(files) => files,
        None => {
            return Vec::new();
        },
    };
    let ghost all = files@;
    let ghost mut i: int = 0;
    let mut out: Vec<Listed<P>> = Vec::new();
    proof {
        assert(all.skip(0) =~= all);
        reveal_with_fuel(Seq::filter, 1);
        assert(out@ =~= all.take(0).filter(is_session()).map_values(listed()));
    }
    while files.len() > 0
        invariant
            0 <= i <= all.len(),
            files@ == all.skip(i),
            out@ == all.take(i).filter(is_session()).map_values(listed()),
        decreases files@.len(),
    {
        let ghost was = all.take(i).filter(is_session());
        let file: DirFile<P> = files.remove(0);
        proof {
            assert(all.skip(i).remove(0) =~= all.skip(i + 1));
            assert(all.take(i + 1) =~= all.take(i).push(file));
            all.take(i).lemma_filter_push(file, is_session());
            assert(was.push(file).map_values(listed()) =~= was.map_values(listed()).push(
                listed()(file),
            ));
            i = i + 1;
        }
        if let Some(l) = session_file(file) {
            out.push(l);
        }
    }
    assert(all.take(all.len() as int) =~= all);
    order::stable_sort(&mut out);
    out
}

/// How long ago something was, given the seconds since then. No seconds stand for
/// a time that is still to come.
pub open spec fn age_text(age: Option<u64>) -> Seq<char> {
    match age {
        None => "just now"@,
        Some(secs) => if secs < 60 {
            "just now"@
        } else if secs < 3600 {
            text::decimal((secs / 60) as nat) + " min ago"@
        } else if secs < 86400 {
            text::decimal((secs / 3600) as nat) + " hr ago"@
        } else {
            text::decimal((secs / 86400) as nat) + " days ago"@
        },
    }
}

/// How long ago something was, given the seconds since then. No seconds stand for
/// a time that is still to come.
pub fn format_age(age: Option<u64>) -> (r: String)
    ensures
        r@ == age_text(age),
{
    match age {
        None => "just now".to_owned(),
        Some(secs) => {
            if secs < 60 {
                "just now".to_owned()
            } else if secs < 3600 {
                let n: String = text::u64_text(secs / 60);
                text::join2(n.as_str(), " min ago")
            } else if secs < 86400 {
                let n: String = text::u64_text(secs / 3600);
                text::join2(n.as_str(), " hr ago")
            } else {
                let n: String = text::u64_text(secs / 86400);
                text::join2(n.as_str(), " days ago")
            }
        },
    }
}

/// How many workspaces and windows there are.
pub open spec fn counts_text(workspaces: nat, windows: nat) -> Seq<char> {
    text::decimal(workspaces) + " workspace"@ + text::plural(workspaces) + ", "@ + text::decimal(
        windows,
    ) + " window"@ + text::plural(windows)
}

/// How many workspaces and windows there are.
pub fn counts(workspaces: usize, windows: usize) -> (r: String)
    ensures
        r@ == counts_text(workspaces as nat, windows as nat),
{
    let w: String = text::usize_text(workspaces);
    let w_ending: String = text::plural_ending(workspaces);
    let n: String = text::usize_text(windows);
    let n_ending: String = text::plural_ending(windows);
    let head: String = text::join3(w.as_str(), " workspace", w_ending.as_str());
    let head: String = text::join3(head.as_str(), ", ", n.as_str());
    text::join3(head.as_str(), " window", n_ending.as_str())
}

/// What a session holds.
pub open spec fn summary_text<W>(session: Option<Session<W>>) -> Seq<char> {
    match session {
        None => "(unreadable)"@,
        Some(s) => counts_text(
            s.workspaces@.len(),
            session::capped(session::windows_in_all(s.workspaces@)),
        ),
    }
}

/// What a session holds. None stands for one that cannot be read.
pub fn session_summary<W>(session: Option<&Session<W>>) -> (r: String)
    ensures
        r@ == summary_text(
            match session {
                Some(s) => Some(*s),
                None => None,
            },
        ),
{
    match session {
        None => "(unreadable)".to_owned(),
        Some(s) => counts(s.workspaces.len(), session::count_windows(&s.workspaces)),
    }
}

/// The line for a session in the list.
pub open spec fn line_text(name: Seq<char>, age: Seq<char>, summary: Seq<char>) -> Seq<char> {
    "  "@ + text::padded(name, 20) + " "@ + text::padded(age, 16) + " "@ + summary
}

/// The line for a session in the list.
pub fn list_line(name: &str, age: &str, summary: &str) -> (r: String)
    ensures
        r@ == line_text(name@, age@, summary@),
{
    let name: String = text::pad_right(name, 20);
    let age: String = text::pad_right(age, 16);
    let head: String = text::join3("  ", name.as_str(), " ");
    let head: String = text::join3(head.as_str(), age.as_str(), " ");
    text::join2(head.as_str(), summary)
}

/// No two files are at the same path.
pub open spec fn distinct_paths<P>(files: Seq<DirFile<P>>) -> bool {
    forall|i: int, j: int|
        0 <= i < j < files.len() ==> (#[trigger] files[i]).path != (#[trigger] files[j]).path
}

/// Whether a row is that of a saved session among the files.
pub open spec fn comes_from<P>(row: Listed<P>, files: Seq<DirFile<P>>) -> bool {
    exists|j: int|
        0 <= j < files.len() && is_session()(#[trigger] files[j]) && listed()(files[j]) == row
}

proof fn lemma_found<P>(files: Seq<DirFile<P>>)
    ensures
        ({
            let found = files.filter(is_session()).map_values(listed());
            &&& forall|k: int|
                0 <= k < found.len() ==> comes_from(#[trigger] found[k], files)
            &&& forall|j: int|
                0 <= j < files.len() && is_session()(#[trigger] files[j]) ==> found.contains(
                    listed()(files[j]),
                )
            &&& distinct_paths(files) ==> forall|a: int, b: int|
                0 <= a < b < found.len() ==> (#[trigger] found[a]).path != (#[trigger] found[b]).path
        }),
    decreases files.len(),
{
    reveal_with_fuel(Seq::filter, 1);
    if files.len() > 0 {
        let front = files.drop_last();
        let last = files.last();
        lemma_found(front);
        let before = front.filter(is_session()).map_values(listed());
        let found = files.filter(is_session()).map_values(listed());
        if is_session()(last) {
            assert(found =~= before.push(listed()(last)));
        } else {
            assert(found =~= before);
        }
        assert forall|k: int| 0 <= k < found.len() implies comes_from(
            #[trigger] found[k],
            files,
        ) by {
            if k < before.len() {
                assert(found[k] == before[k]);
                assert(comes_from(before[k], front));
                let j = choose|j: int|
                    0 <= j < front.len() && is_session()(#[trigger] front[j]) && listed()(front[j])
                        == before[k];
                assert(files[j] == front[j]);
            } else {
                assert(files[files.len() - 1] == last);
            }
        }
        assert forall|j: int|
            0 <= j < files.len() && is_session()(#[trigger] files[j]) implies found.contains(
            listed()(files[j]),
        ) by {
            if j < front.len() {
                assert(front[j] == files[j]);
                assert(before.contains(listed()(front[j])));
                let k = choose|k: int| 0 <= k < before.len() && before[k] == listed()(front[j]);
                assert(found[k] == before[k]);
            } else {
                assert(found[found.len() - 1] == listed()(last));
            }
        }
        if distinct_paths(files) {
            assert(distinct_paths(front)) by {
                assert forall|i: int, j: int| 0 <= i < j < front.len() implies (
                #[trigger] front[i]).path != (#[trigger] front[j]).path by {
                    assert(front[i] == files[i] && front[j] == files[j]);
                }
            }
            assert forall|a: int, b: int| 0 <= a < b < found.len() implies (
            #[trigger] found[a]).path != (#[trigger] found[b]).path by {
                assert(found[a] == before[a]);
                if b < before.len() {
                    assert(found[b] == before[b]);
                } else {
                    assert(comes_from(before[a], front));
                    let j = choose|j: int|
                        0 <= j < front.len() && is_session()(#[trigger] front[j]) && listed()(
                            front[j],
                        ) == before[a];
                    assert(files[j].path != files[files.len() - 1].path);
                }
            }
        }
    }
}

/// Every saved session has one row in the list, whatever its name is, and nothing
/// else has one.
pub proof fn law_every_session_is_listed_once<P>(files: Seq<DirFile<P>>)
    requires
        distinct_paths(files),
    ensures
        forall|i: int|
            0 <= i < files.len() && is_session()(#[trigger] files[i]) ==> sessions_in(
                files,
            ).contains(listed()(files[i])),
        forall|k: int|
            0 <= k < sessions_in(files).len() ==> comes_from(
                #[trigger] sessions_in(files)[k],
                files,
            ),
        forall|a: int, b: int|
            0 <= a < b < sessions_in(files).len() ==> (#[trigger] sessions_in(files)[a]).path != (
            #[trigger] sessions_in(files)[b]).path,
{
    let found = files.filter(is_session()).map_values(listed());
    let rows = sessions_in(files);
    lemma_found(files);
    order::law_stable_sort_exists(found);
    order::law_stable_sort_keeps_items(found, rows);
    found.to_multiset_ensures();
    rows.to_multiset_ensures();
    assert(found.no_duplicates());
    found.lemma_multiset_has_no_duplicates();
    rows.lemma_multiset_has_no_duplicates_conv();
    assert forall|i: int| 0 <= i < files.len() && is_session()(#[trigger] files[i]) implies rows.contains(
        listed()(files[i]),
    ) by {
        assert(found.to_multiset().count(listed()(files[i])) > 0);
        assert(rows.to_multiset().count(listed()(files[i])) > 0);
    }
    assert forall|k: int| 0 <= k < rows.len() implies found.contains(#[trigger] rows[k]) by {
        assert(rows.contains(rows[k]));
        assert(rows.to_multiset().count(rows[k]) > 0);
        assert(found.to_multiset().count(rows[k]) > 0);
    }
    assert forall|k: int| 0 <= k < rows.len() implies comes_from(#[trigger] rows[k], files) by {
        assert(found.contains(rows[k]));
        let m = choose|m: int| 0 <= m < found.len() && found[m] == rows[k];
        assert(found[m] == rows[k]);
    }
    assert forall|a: int, b: int| 0 <= a < b < rows.len() implies (#[trigger] rows[a]).path != (
    #[trigger] rows[b]).path by {
        assert(found.contains(rows[a]) && found.contains(rows[b]));
        let m = choose|m: int| 0 <= m < found.len() && found[m] == rows[a];
        let n = choose|n: int| 0 <= n < found.len() && found[n] == rows[b];
        assert(rows[a] != rows[b]);
        if m < n {
            assert(found[m].path != found[n].path);
        } else {
            assert(found[n].path != found[m].path);
        }
    }
}

/// The list starts with the session that was changed last.
pub proof fn law_newest_sessions_come_first<P>(files: Seq<DirFile<P>>, i: int, j: int)
    requires
        0 <= i < j < sessions_in(files).len(),
    ensures
        sessions_in(files)[i].modified >= sessions_in(files)[j].modified,
{
    let found = files.filter(is_session()).map_values(listed());
    order::law_stable_sort_exists(found);
    assert(sessions_in(files)[i].rank() <= sessions_in(files)[j].rank());
}

/// Ages are told in the largest unit that they fill: minutes, hours or days, whole
/// ones, rounded down.
pub proof fn law_ages_are_told_in_whole_units(secs: u64, n: u64)
    ensures
        secs < 60 ==> age_text(Some(secs)) == "just now"@,
        1 <= n < 60 && 60 * n <= secs < 60 * (n + 1) ==> age_text(Some(secs)) == text::decimal(
            n as nat,
        ) + " min ago"@,
        1 <= n < 24 && 3600 * n <= secs < 3600 * (n + 1) ==> age_text(Some(secs)) == text::decimal(
            n as nat,
        ) + " hr ago"@,
        1 <= n && 86400 * n <= secs < 86400 * (n + 1) ==> age_text(Some(secs)) == text::decimal(
            n as nat,
        ) + " days ago"@,
        age_text(None) == "just now"@,
{
}

/// A line shows the name, then the age, then the summary, in columns.
pub proof fn law_lines_have_columns(name: Seq<char>, age: Seq<char>, summary: Seq<char>)
    requires
        name.len() <= 20,
        age.len() <= 16,
    ensures
        ({
            let line = line_text(name, age, summary);
            &&& line.len() == 40 + summary.len()
            &&& line.subrange(2, 2int + name.len()) == name
            &&& line.subrange(23, 23int + age.len()) == age
            &&& line.skip(40) == summary
        }),
{
    reveal_strlit("  ");
    reveal_strlit(" ");
    text::law_padding_fills_up(name, 20);
    text::law_padding_fills_up(age, 16);
    let line = line_text(name, age, summary);
    let n = text::padded(name, 20);
    let a = text::padded(age, 16);
    assert(line.subrange(2, 2int + name.len()) =~= n.take(name.len() as int));
    assert(line.subrange(23, 23int + age.len()) =~= a.take(age.len() as int));
    assert(line.skip(40) =~= summary);
}

/// A summary tells how many workspaces and how many windows there are, and a session
/// that cannot be read is said to be so.
pub proof fn law_summaries_count<W>(s: Session<W>)
    ensures
        ({
            let workspaces = s.workspaces@.len();
            let windows = session::capped(session::windows_in_all(s.workspaces@));
            let told = summary_text(Some(s));
            &&& text::begins(told, text::decimal(workspaces) + " workspace"@)
            &&& text::ends(told, text::decimal(windows) + " window"@ + text::plural(windows))
            &&& summary_text::<W>(None) == "(unreadable)"@
        }),
{
    let workspaces = s.workspaces@.len();
    let windows = session::capped(session::windows_in_all(s.workspaces@));
    let told = summary_text(Some(s));
    let head = text::decimal(workspaces) + " workspace"@;
    let tail = text::decimal(windows) + " window"@ + text::plural(windows);
    assert(told =~= head + (text::plural(workspaces) + ", "@ + tail));
    assert(told =~= (head + text::plural(workspaces) + ", "@) + tail);
}

/// A file is a session exactly where its name has a stem and the extension `json`, and
/// it is known when it was changed; it is listed by its stem, its path and that time.
pub proof fn law_sessions_are_json_files<P>(f: DirFile<P>)
    ensures
        f.stem is None || f.modified is None || f.extension is None ==> !is_session()(f),
        f.extension matches Some(e) ==> (e@ != "json"@ ==> !is_session()(f)),
        f.stem is Some && f.modified is Some ==> (f.extension matches Some(e) ==> (e@ == "json"@
            ==> is_session()(f))),
        ({
            let row = listed()(f);
            &&& Some(row.name) == f.stem || f.stem is None
            &&& row.path == f.path
            &&& Some(row.modified) == f.modified || f.modified is None
        }),
{
}

} // verus!
