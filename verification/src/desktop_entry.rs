//! Finding the command that launches an app from its desktop entry.

use vstd::prelude::*;

use crate::paths;
use crate::text;

verus! {

/// The directories with desktop entries, the first one first.
pub open spec fn application_dirs(home: Option<Seq<char>>) -> Seq<Seq<char>> {
    let system = seq![
        "/usr/share/applications"@,
        "/var/lib/flatpak/exports/share/applications"@,
        "/usr/local/share/applications"@,
    ];
    match home {
        Some(h) => seq![paths::joined_path(h, ".local/share/applications"@)] + system,
        None => system,
    }
}

/// The directories to search for desktop entries, the first one first.
pub fn search_dirs(home: Option<String>) -> (r: Vec<String>)
    ensures
        text::texts(r@) == application_dirs(text::opt_text(home)),
{
    let mut dirs: Vec<String> = Vec::new();
    let ghost h = text::opt_text(home);
    if let Some(home) = home {
        dirs.push(paths::join_path(home.as_str(), ".local/share/applications"));
    }
    dirs.push("/usr/share/applications".to_owned());
    dirs.push("/var/lib/flatpak/exports/share/applications".to_owned());
    dirs.push("/usr/local/share/applications".to_owned());
    assert(text::texts(dirs@) =~= application_dirs(h));
    dirs
}

/// A file in a directory with desktop entries. `P` is what the caller finds the
/// file by.
#[derive(Debug, Clone, PartialEq)]
pub struct DirEntry<P> {
    pub path: P,
    pub extension: Option<String>,
}

/// The test whether a file is a desktop entry, by its extension.
pub open spec fn is_desktop_file<P>() -> spec_fn(DirEntry<P>) -> bool {
    |e: DirEntry<P>| text::opt_text(e.extension) == Some("desktop"@)
}

/// The desktop entries of the directories, in the order of the directories. One
/// that could not be listed counts as empty.
pub open spec fn desktop_files<P>(listings: Seq<Option<Vec<DirEntry<P>>>>) -> Seq<DirEntry<P>>
    decreases listings.len(),
{
    if listings.len() == 0 {
        Seq::empty()
    } else {
        desktop_files(listings.drop_last()) + (match listings.last() {
            Some(files) => files@.filter(is_desktop_file()),
            None => Seq::empty(),
        })
    }
}

fn is_desktop<P>(e: &DirEntry<P>) -> (r: bool)
    ensures
        r == is_desktop_file::<P>()(*e),
{
    match &e.extension {
        Some(x) => text::same(x.as_str(), "desktop"),
        None => false,
    }
}

/// The desktop entries among the files of `listings`. A directory that could not
/// be listed is skipped.
pub fn collect_desktop_files<P>(listings: Vec<Option<Vec<DirEntry<P>>>>) -> (r: Vec<DirEntry<P>>)
    ensures
        r@ == desktop_files(listings@),
{
    let ghost all = listings@;
    let mut listings = listings;
    let mut out: Vec<DirEntry<P>> = Vec::new();
    let ghost mut i: int = 0;
    assert(all.skip(0) =~= all);
    while listings.len() > 0
        invariant
            0 <= i <= all.len(),
            listings@ == all.skip(i),
            out@ == desktop_files(all.take(i)),
        decreases listings@.len(),
    {
        let listing: Option<Vec<DirEntry<P>>> = listings.remove(0);
        let ghost had = out@;
        proof {
            assert(all.skip(i).remove(0) =~= all.skip(i + 1));
            assert(all.take(i + 1).drop_last() =~= all.take(i));
            assert(all.take(i + 1).last() == listing);
            i = i + 1;
        }
        if let Some(files) = listing {
            let ghost fs = files@;
            let mut files = files;
            let ghost mut k: int = 0;
            assert(fs.skip(0) =~= fs);
            assert(fs.take(0).filter(is_desktop_file()) =~= Seq::<DirEntry<P>>::empty()) by {
                reveal_with_fuel(Seq::filter, 1);
            }
            assert(had + Seq::<DirEntry<P>>::empty() =~= had);
            while files.len() > 0
                invariant
                    0 <= k <= fs.len(),
                    files@ == fs.skip(k),
                    out@ == had + fs.take(k).filter(is_desktop_file()),
                decreases files@.len(),
            {
                let file: DirEntry<P> = files.remove(0);
                proof {
                    assert(fs.skip(k).remove(0) =~= fs.skip(k + 1));
                    assert(fs.take(k + 1) =~= fs.take(k).push(file));
                    fs.take(k).lemma_filter_push(file, is_desktop_file());
                    k = k + 1;
                }
                if is_desktop(&file) {
                    out.push(file);
                    assert(out@ =~= had + fs.take(k).filter(is_desktop_file()));
                }
            }
            assert(fs.take(fs.len() as int) =~= fs);
        } else {
            assert(out@ =~= had + Seq::<DirEntry<P>>::empty());
        }
    }
    assert(all.take(all.len() as int) =~= all);
    out
}

// ------------------------------------------------------------------ desktop files

/// The lines of a file, each without the white space around it.
pub open spec fn lines_of(file: Seq<char>) -> Seq<Seq<char>> {
    text::split(file, '\n').map_values(|l: Seq<char>| text::trimmed(l))
}

/// Whether a line opens a section.
pub open spec fn is_header(line: Seq<char>) -> bool {
    line.len() > 0 && line[0] == '['
}

/// Whether line `i` stands in a section `[Desktop Entry]`: the last header above
/// it is that one.
pub open spec fn in_main_section(lines: Seq<Seq<char>>, i: int) -> bool {
    exists|j: int|
        0 <= j < i && #[trigger] lines[j] == "[Desktop Entry]"@ && forall|k: int|
            j < k < i ==> !is_header(#[trigger] lines[k])
}

/// Whether line `i` gives `key` a value in a section `[Desktop Entry]`.
pub open spec fn gives_key(lines: Seq<Seq<char>>, i: int, key: Seq<char>) -> bool {
    &&& 0 <= i < lines.len()
    &&& in_main_section(lines, i)
    &&& !is_header(lines[i])
    &&& text::after_prefix(lines[i], key + "="@) is Some
}

/// The first line that gives `key` a value.
pub open spec fn first_with_key(lines: Seq<Seq<char>>, i: int, key: Seq<char>) -> bool {
    gives_key(lines, i, key) && forall|j: int| 0 <= j < i ==> !gives_key(lines, j, key)
}

/// The value that a desktop file gives `key`: that of the first line in a section
/// `[Desktop Entry]` that has one. Other sections, such as those of desktop
/// actions, do not count.
pub open spec fn value_of(file: Seq<char>, key: Seq<char>) -> Option<Seq<char>> {
    let lines = lines_of(file);
    if exists|i: int| first_with_key(lines, i, key) {
        let i = choose|i: int| first_with_key(lines, i, key);
        Some(text::trimmed(text::after_prefix(lines[i], key + "="@)->0))
    } else {
        None
    }
}

/// The value that a desktop file gives `key` in its section `[Desktop Entry]`.
pub fn find_key(file: &str, key: &str) -> (r: Option<String>)
    ensures
        text::opt_text(r) == value_of(file@, key@),
{
    let prefix: String = text::join2(key, "=");
    let raw: Vec<String> = text::split_on(file, '\n');
    let ghost lines = lines_of(file@);
    let mut in_main: bool = false;
    let mut i: usize = 0;
    proof {
        reveal_strlit("[Desktop Entry]");
    }
    while i < raw.len()
        invariant
            0 <= i <= raw@.len(),
            text::texts(raw@) == text::split(file@, '\n'),
            lines == lines_of(file@),
            lines.len() == raw@.len(),
            prefix@ == key@ + "="@,
            is_header("[Desktop Entry]"@),
            in_main == in_main_section(lines, i as int),
            forall|j: int| 0 <= j < i ==> !gives_key(lines, j, key@),
        decreases raw@.len() - i,
    {
        let line: String = text::trim(raw[i].as_str());
        assert(text::texts(raw@)[i as int] == raw@[i as int]@);
        assert(line@ == lines[i as int]);
        let starts: Vec<char> = text::chars_of(line.as_str());
        if starts.len() > 0 && starts[0] == '[' {
            in_main = text::same(line.as_str(), "[Desktop Entry]");
            proof {
                assert(is_header(lines[i as int]));
                if in_main_section(lines, i as int + 1) {
                    let j = choose|j: int|
                        0 <= j < i + 1 && #[trigger] lines[j] == "[Desktop Entry]"@ && forall|k: int|
                            j < k < i + 1 ==> !is_header(#[trigger] lines[k]);
                    assert(j == i);
                }
                if lines[i as int] == "[Desktop Entry]"@ {
                    assert(in_main_section(lines, i as int + 1));
                }
                assert(!gives_key(lines, i as int, key@));
            }
        } else {
            if in_main {
                if let Some(rest) = text::strip_prefix(line.as_str(), prefix.as_str()) {
                    proof {
                        assert(first_with_key(lines, i as int, key@));
                        let c = choose|c: int| first_with_key(lines, c, key@);
                        assert(c == i) by {
                            if c < i {
                                assert(!gives_key(lines, c, key@));
                            } else if c > i {
                                assert(!gives_key(lines, i as int, key@));
                            }
                        }
                    }
                    return Some(text::trim(rest.as_str()));
                }
            }
            proof {
                assert(!gives_key(lines, i as int, key@));
                lemma_section_goes_on(lines, i as int);
            }
        }
        i += 1;
    }
    assert forall|j: int| !first_with_key(lines, j, key@) by {
        if first_with_key(lines, j, key@) {
            assert(!gives_key(lines, j, key@));
        }
    }
    None
}

proof fn lemma_section_goes_on(lines: Seq<Seq<char>>, i: int)
    requires
        0 <= i < lines.len(),
        !is_header(lines[i]),
        is_header("[Desktop Entry]"@),
    ensures
        in_main_section(lines, i + 1) == in_main_section(lines, i),
{
    if in_main_section(lines, i) {
        let j = choose|j: int|
            0 <= j < i && #[trigger] lines[j] == "[Desktop Entry]"@ && forall|k: int|
                j < k < i ==> !is_header(#[trigger] lines[k]);
        assert(lines[j] == "[Desktop Entry]"@);
    }
    if in_main_section(lines, i + 1) {
        let j = choose|j: int|
            0 <= j < i + 1 && #[trigger] lines[j] == "[Desktop Entry]"@ && forall|k: int|
                j < k < i + 1 ==> !is_header(#[trigger] lines[k]);
        assert(lines[j] == "[Desktop Entry]"@);
        assert(j != i);
    }
}

// -------------------------------------------------------------------- command lines

/// Whether `%` followed by `c` is a field code.
pub open spec fn is_field_code(c: char) -> bool {
    ||| c == 'f' || c == 'F' || c == 'u' || c == 'U' || c == 'd' || c == 'D'
    ||| c == 'n' || c == 'N' || c == 'i' || c == 'c' || c == 'k' || c == 'v' || c == 'm'
}

/// `exec` without its field codes, and with `%%` read as `%`.
pub open spec fn stripped(exec: Seq<char>) -> Seq<char>
    decreases exec.len(),
{
    if exec.len() == 0 {
        Seq::empty()
    } else if exec[0] == '%' && exec.len() > 1 && exec[1] == '%' {
        seq!['%'] + stripped(exec.skip(2))
    } else if exec[0] == '%' && exec.len() > 1 && is_field_code(exec[1]) {
        stripped(exec.skip(2))
    } else {
        seq![exec[0]] + stripped(exec.skip(1))
    }
}

/// Removes field codes from a command line, and reads `%%` as `%`.
pub fn strip_field_codes(exec: &str) -> (r: String)
    ensures
        r@ == stripped(exec@),
{
    let chars: Vec<char> = text::chars_of(exec);
    let mut out: String = String::new();
    let mut i: usize = 0;
    assert(exec@.skip(0) =~= exec@);
    assert(out@ + stripped(exec@) =~= stripped(exec@));
    while i < chars.len()
        invariant
            chars@ == exec@,
            0 <= i <= chars@.len(),
            out@ + stripped(exec@.skip(i as int)) == stripped(exec@),
        decreases chars@.len() - i,
    {
        let c: char = chars[i];
        let ghost rest = exec@.skip(i as int);
        let ghost was = out@;
        assert(rest[0] == c);
        assert(rest.skip(1) =~= exec@.skip(i as int + 1));
        if c == '%' && i + 1 < chars.len() {
            let next: char = chars[i + 1];
            assert(rest[1] == next);
            assert(rest.skip(2) =~= exec@.skip(i as int + 2));
            if next == '%' {
                out.push('%');
                assert(out@ + stripped(rest.skip(2)) =~= was + stripped(rest));
                i += 2;
                continue ;
            }
            if next == 'f' || next == 'F' || next == 'u' || next == 'U' || next == 'd' || next
                == 'D' || next == 'n' || next == 'N' || next == 'i' || next == 'c' || next == 'k'
                || next == 'v' || next == 'm' {
                i += 2;
                continue ;
            }
        }
        out.push(c);
        assert(out@ + stripped(rest.skip(1)) =~= was + stripped(rest));
        i += 1;
    }
    assert(out@ + stripped(exec@.skip(i as int)) =~= out@);
    out
}

/// The arguments that `rest` goes on with, `cur` being what there is of the
/// current one, and `quoted` whether a quote is open. Spaces outside quotes
/// separate arguments.
pub open spec fn arguments(rest: Seq<char>, quoted: bool, cur: Seq<char>) -> Seq<Seq<char>>
    decreases rest.len(),
{
    if rest.len() == 0 {
        if cur.len() > 0 {
            seq![cur]
        } else {
            Seq::empty()
        }
    } else if rest[0] == '"' {
        arguments(rest.skip(1), !quoted, cur)
    } else if rest[0] == ' ' && !quoted {
        if cur.len() > 0 {
            seq![cur] + arguments(rest.skip(1), quoted, Seq::empty())
        } else {
            arguments(rest.skip(1), quoted, cur)
        }
    } else {
        arguments(rest.skip(1), quoted, cur.push(rest[0]))
    }
}

/// The arguments of a command line.
pub open spec fn argv(exec: Seq<char>) -> Seq<Seq<char>> {
    arguments(text::trimmed(exec), false, Seq::empty())
}

/// Splits a command line into its arguments. Double quotes keep spaces in an
/// argument.
pub fn split_exec(exec: &str) -> (r: Vec<String>)
    ensures
        text::texts(r@) == argv(exec@),
{
    let line: String = text::trim(exec);
    let chars: Vec<char> = text::chars_of(line.as_str());
    let mut args: Vec<String> = Vec::new();
    let mut current: String = String::new();
    let mut in_quotes: bool = false;
    let mut i: usize = 0;
    assert(line@.skip(0) =~= line@);
    assert(current@ =~= Seq::<char>::empty());
    assert(text::texts(args@) + argv(exec@) =~= argv(exec@));
    while i < chars.len()
        invariant
            chars@ == line@,
            0 <= i <= chars@.len(),
            text::texts(args@) + arguments(line@.skip(i as int), in_quotes, current@) == argv(
                exec@,
            ),
        decreases chars@.len() - i,
    {
        let c: char = chars[i];
        let ghost rest = line@.skip(i as int);
        let ghost had = text::texts(args@);
        let ghost cur = current@;
        assert(rest[0] == c);
        assert(rest.skip(1) =~= line@.skip(i as int + 1));
        if c == '"' {
            in_quotes = !in_quotes;
        } else if c == ' ' && !in_quotes {
            if current.as_str().unicode_len() > 0 {
                args.push(current);
                current = String::new();
                proof {
                    assert(current@ =~= Seq::<char>::empty());
                    assert(text::texts(args@) =~= had.push(cur));
                    assert(text::texts(args@) + arguments(rest.skip(1), in_quotes, current@) =~= had
                        + (seq![cur] + arguments(rest.skip(1), in_quotes, current@)));
                }
            }
        } else {
            current.push(c);
        }
        i += 1;
    }
    let ghost had = text::texts(args@);
    let ghost cur = current@;
    if current.as_str().unicode_len() > 0 {
        args.push(current);
        assert(text::texts(args@) =~= had + seq![cur]);
    } else {
        assert(text::texts(args@) =~= had + Seq::<Seq<char>>::empty());
    }
    args
}

/// The command that a value of `Exec` stands for.
pub open spec fn command(exec: Seq<char>) -> Option<Seq<Seq<char>>> {
    let args = argv(stripped(exec));
    if args.len() > 0 {
        Some(args)
    } else {
        None
    }
}

/// The texts of an optional list of strings.
pub open spec fn opt_texts(v: Option<Vec<String>>) -> Option<Seq<Seq<char>>> {
    match v {
        Some(a) => Some(text::texts(a@)),
        None => None,
    }
}

/// Reads a value of `Exec` as a command. There is none where nothing is left of
/// it.
pub fn parse_exec(exec: &str) -> (r: Option<Vec<String>>)
    ensures
        opt_texts(r) == command(exec@),
{
    let cleaned: String = strip_field_codes(exec);
    let args: Vec<String> = split_exec(cleaned.as_str());
    assert(text::texts(args@).len() == args@.len());
    if args.len() > 0 {
        Some(args)
    } else {
        None
    }
}

// ----------------------------------------------------------------------- resolving

/// A desktop entry: the name of its file, and what the file holds, as far as
/// either can be read.
#[derive(Debug, Clone, PartialEq)]
pub struct DesktopFile {
    pub file_name: Option<String>,
    pub text: Option<String>,
}

/// The command in a desktop file.
pub open spec fn exec_command(file: Seq<char>) -> Option<Seq<Seq<char>>> {
    match value_of(file, "Exec"@) {
        Some(exec) => command(exec),
        None => None,
    }
}

/// The command of an entry that names `class` as the class of its windows.
pub open spec fn class_command(class: Seq<char>) -> spec_fn(DesktopFile) -> Option<
    Seq<Seq<char>>,
> {
    |e: DesktopFile|
        match text::opt_text(e.text) {
            Some(file) => match value_of(file, "StartupWMClass"@) {
                Some(v) => if text::ascii_lowered(v) == text::ascii_lowered(class) {
                    exec_command(file)
                } else {
                    None
                },
                None => None,
            },
            None => None,
        }
}

/// The command of an entry in a file called `name`.
pub open spec fn named_command(name: Seq<char>) -> spec_fn(DesktopFile) -> Option<
    Seq<Seq<char>>,
> {
    |e: DesktopFile|
        match (text::opt_text(e.file_name), text::opt_text(e.text)) {
            (Some(f), Some(file)) => if text::ascii_lowered(f) == text::ascii_lowered(name) {
                exec_command(file)
            } else {
                None
            },
            _ => None,
        }
}

/// The first command that `of` gives for one of the entries.
pub open spec fn first_command(
    entries: Seq<DesktopFile>,
    of: spec_fn(DesktopFile) -> Option<Seq<Seq<char>>>,
) -> Option<Seq<Seq<char>>>
    decreases entries.len(),
{
    if entries.len() == 0 {
        None
    } else if of(entries[0]) is Some {
        of(entries[0])
    } else {
        first_command(entries.skip(1), of)
    }
}

/// The command for `class`: that of the first entry that names the class, else
/// that of the first entry in a file called `name`, else that of the first entry in
/// a file called as the class.
pub open spec fn resolved(
    class: Seq<char>,
    name: Seq<char>,
    entries: Seq<DesktopFile>,
) -> Option<Seq<Seq<char>>> {
    match first_command(entries, class_command(class)) {
        Some(c) => Some(c),
        None => match first_command(entries, named_command(name)) {
            Some(c) => Some(c),
            None => first_command(entries, named_command(class + ".desktop"@)),
        },
    }
}

/// What `str::to_lowercase` makes of a text.
pub uninterp spec fn lowercase_of(s: Seq<char>) -> Seq<char>;

/// Calls `str::to_lowercase`, which maps a text to lower case by the rules of
/// Unicode. In a text of ASCII characters that changes the letters `A` to `Z`
/// and nothing else; what it makes of other texts is not said here.
#[verifier::external_body]
fn lowercase(s: &str) -> (r: String)
    ensures
        r@ == lowercase_of(s@),
        (forall|i: int| 0 <= i < s@.len() ==> (#[trigger] s@[i]) as int <= 127) ==> r@
            == text::ascii_lowered(s@),
{
    s.to_lowercase()
}

fn exec_of(file: &str) -> (r: Option<Vec<String>>)
    ensures
        opt_texts(r) == exec_command(file@),
{
    match find_key(file, "Exec") {
        Some(exec) => parse_exec(exec.as_str()),
        None => None,
    }
}

fn command_by_class(e: &DesktopFile, class: &str) -> (r: Option<Vec<String>>)
    ensures
        opt_texts(r) == class_command(class@)(*e),
{
    match &e.text {
        Some(file) => match find_key(file.as_str(), "StartupWMClass") {
            Some(v) => if text::eq_ignore_ascii_case(v.as_str(), class) {
                exec_of(file.as_str())
            } else {
                None
            },
            None => None,
        },
        None => None,
    }
}

fn command_by_name(e: &DesktopFile, name: &str) -> (r: Option<Vec<String>>)
    ensures
        opt_texts(r) == named_command(name@)(*e),
{
    match &e.file_name {
        Some(f) => if text::eq_ignore_ascii_case(f.as_str(), name) {
            match &e.text {
                Some(file) => exec_of(file.as_str()),
                None => None,
            }
        } else {
            None
        },
        None => None,
    }
}

/// The command for `class`, from the entries that name it as the class of their
/// windows, or failing that from a file called `name` or called as the class.
pub fn resolve_by_name(class: &str, name: &str, entries: &Vec<DesktopFile>) -> (r: Option<
    Vec<String>,
>)
    ensures
        opt_texts(r) == resolved(class@, name@, entries@),
{
    let mut i: usize = 0;
    assert(entries@.skip(0) =~= entries@);
    while i < entries.len()
        invariant
            0 <= i <= entries@.len(),
            first_command(entries@, class_command(class@)) == first_command(
                entries@.skip(i as int),
                class_command(class@),
            ),
        decreases entries@.len() - i,
    {
        assert(entries@.skip(i as int)[0] == entries@[i as int]);
        assert(entries@.skip(i as int).skip(1) =~= entries@.skip(i as int + 1));
        let found: Option<Vec<String>> = command_by_class(&entries[i], class);
        if found.is_some() {
            return found;
        }
        i += 1;
    }
    let found: Option<Vec<String>> = first_named(name, entries);
    if found.is_some() {
        return found;
    }
    let own: String = text::join2(class, ".desktop");
    first_named(own.as_str(), entries)
}

fn first_named(name: &str, entries: &Vec<DesktopFile>) -> (r: Option<Vec<String>>)
    ensures
        opt_texts(r) == first_command(entries@, named_command(name@)),
{
    let mut k: usize = 0;
    assert(entries@.skip(0) =~= entries@);
    while k < entries.len()
        invariant
            0 <= k <= entries@.len(),
            first_command(entries@, named_command(name@)) == first_command(
                entries@.skip(k as int),
                named_command(name@),
            ),
        decreases entries@.len() - k,
    {
        assert(entries@.skip(k as int)[0] == entries@[k as int]);
        assert(entries@.skip(k as int).skip(1) =~= entries@.skip(k as int + 1));
        let found: Option<Vec<String>> = command_by_name(&entries[k], name);
        if found.is_some() {
            return found;
        }
        k += 1;
    }
    None
}

/// A command that launches `class`, by its desktop entry.
///
/// An entry that names the class in `StartupWMClass` comes first, as that field
/// is made for this. Where none does, the entry in the file `<class>.desktop`
/// is taken, with the class in lower case or failing that as it is. No comparison
/// minds the case of ASCII letters; that of other letters counts.
pub fn resolve_by_class(class: &str, entries: &Vec<DesktopFile>) -> (r: Option<Vec<String>>)
    ensures
        opt_texts(r) == resolved(class@, lowercase_of(class@) + ".desktop"@, entries@),
        (forall|i: int| 0 <= i < class@.len() ==> (#[trigger] class@[i]) as int <= 127)
            ==> opt_texts(r) == resolved(class@, class@ + ".desktop"@, entries@),
{
    let lowered: String = lowercase(class);
    let name: String = text::join2(lowered.as_str(), ".desktop");
    proof {
        let a = lowered@ + ".desktop"@;
        let b = class@ + ".desktop"@;
        if forall|i: int| 0 <= i < class@.len() ==> (#[trigger] class@[i]) as int <= 127 {
            assert(lowered@ == text::ascii_lowered(class@));
            assert(text::ascii_lowered(a) =~= text::ascii_lowered(b)) by {
                assert forall|i: int| 0 <= i < class@.len() implies text::ascii_lower(
                    lowered@[i],
                ) == text::ascii_lower(class@[i]) by {
                    assert(lowered@[i] == text::ascii_lower(class@[i]));
                }
            }
            assert(named_command(a) =~= named_command(b));
        }
    }
    resolve_by_name(class, name.as_str(), entries)
}

// ------------------------------------------------------------------------- laws

/// Whether no argument is empty, and none holds a double quote.
pub open spec fn are_clean(args: Seq<Seq<char>>) -> bool {
    forall|i: int| 0 <= i < args.len() ==> (#[trigger] args[i]).len() > 0 && !args[i].contains('"')
}

proof fn lemma_arguments_are_clean(rest: Seq<char>, quoted: bool, cur: Seq<char>)
    requires
        !cur.contains('"'),
    ensures
        are_clean(arguments(rest, quoted, cur)),
    decreases rest.len(),
{
    if rest.len() > 0 {
        if rest[0] == '"' {
            lemma_arguments_are_clean(rest.skip(1), !quoted, cur);
        } else if rest[0] == ' ' && !quoted {
            if cur.len() > 0 {
                let tail = arguments(rest.skip(1), quoted, Seq::empty());
                lemma_arguments_are_clean(rest.skip(1), quoted, Seq::empty());
                let all = seq![cur] + tail;
                assert forall|i: int| 0 <= i < all.len() implies (#[trigger] all[i]).len() > 0
                    && !all[i].contains('"') by {
                    if i > 0 {
                        assert(all[i] == tail[i - 1]);
                    }
                }
                assert(are_clean(all));
            } else {
                lemma_arguments_are_clean(rest.skip(1), quoted, cur);
            }
        } else {
            let next = cur.push(rest[0]);
            assert(!next.contains('"')) by {
                if next.contains('"') {
                    let j = choose|j: int| 0 <= j < next.len() && next[j] == '"';
                    if j < cur.len() {
                        assert(cur[j] == '"');
                    }
                }
            }
            lemma_arguments_are_clean(rest.skip(1), quoted, next);
        }
    }
}

/// No argument of a command line is empty, and none holds a double quote.
pub proof fn law_arguments_are_clean(exec: Seq<char>)
    ensures
        are_clean(argv(exec)),
{
    lemma_arguments_are_clean(text::trimmed(exec), false, Seq::empty());
}

/// A command line without `%` has no field codes to lose.
pub proof fn law_text_without_percent_is_kept(exec: Seq<char>)
    requires
        !exec.contains('%'),
    ensures
        stripped(exec) == exec,
    decreases exec.len(),
{
    if exec.len() > 0 {
        let rest = exec.skip(1);
        assert(exec.contains(exec[0]));
        assert(!rest.contains('%')) by {
            if rest.contains('%') {
                let j = choose|j: int| 0 <= j < rest.len() && rest[j] == '%';
                assert(exec[j + 1] == '%');
            }
        }
        law_text_without_percent_is_kept(rest);
        assert(seq![exec[0]] + rest =~= exec);
    } else {
        assert(stripped(exec) =~= exec);
    }
}

proof fn lemma_first_command_is_one(
    entries: Seq<DesktopFile>,
    of: spec_fn(DesktopFile) -> Option<Seq<Seq<char>>>,
)
    ensures
        first_command(entries, of) is Some <==> exists|i: int|
            0 <= i < entries.len() && of(#[trigger] entries[i]) is Some,
        first_command(entries, of) is Some ==> exists|i: int|
            0 <= i < entries.len() && of(#[trigger] entries[i]) == first_command(entries, of),
    decreases entries.len(),
{
    if entries.len() > 0 && of(entries[0]) is None {
        let rest = entries.skip(1);
        lemma_first_command_is_one(rest, of);
        if first_command(rest, of) is Some {
            let i = choose|i: int|
                0 <= i < rest.len() && of(#[trigger] rest[i]) == first_command(rest, of);
            assert(entries[i + 1] == rest[i]);
        }
        assert forall|i: int|
            0 <= i < entries.len() && of(#[trigger] entries[i]) is Some implies first_command(
            rest,
            of,
        ) is Some by {
            assert(rest[i - 1] == entries[i]);
        }
    }
}

/// A command that was found has a program to run, and some entry of those that
/// were searched gave it.
pub proof fn law_resolved_commands_can_run(
    class: Seq<char>,
    name: Seq<char>,
    entries: Seq<DesktopFile>,
)
    ensures
        resolved(class, name, entries) matches Some(c) ==> {
            &&& c.len() > 0
            &&& exists|i: int|
                #![trigger entries[i]]
                0 <= i < entries.len() && text::opt_text(entries[i].text) is Some && exec_command(
                    text::opt_text(entries[i].text)->0,
                ) == Some(c)
        },
{
    lemma_first_command_is_one(entries, class_command(class));
    lemma_first_command_is_one(entries, named_command(name));
    lemma_first_command_is_one(entries, named_command(class + ".desktop"@));
}

proof fn lemma_first_command_exists(
    entries: Seq<DesktopFile>,
    of: spec_fn(DesktopFile) -> Option<Seq<Seq<char>>>,
    i: int,
)
    requires
        0 <= i < entries.len(),
        of(entries[i]) is Some,
    ensures
        first_command(entries, of) is Some,
    decreases entries.len(),
{
    if of(entries[0]) is None {
        assert(entries.skip(1)[i - 1] == entries[i]);
        lemma_first_command_exists(entries.skip(1), of, i - 1);
    }
}

/// An entry in the file `<class>.desktop` gives a command for the class, whatever
/// letters the class has, and in whatever case its ASCII letters are in the name of
/// the file.
pub proof fn law_file_named_after_the_class_is_found(
    class: Seq<char>,
    name: Seq<char>,
    entries: Seq<DesktopFile>,
    i: int,
)
    requires
        0 <= i < entries.len(),
        text::opt_text(entries[i].file_name) matches Some(f) && text::ascii_lowered(f)
            == text::ascii_lowered(class + ".desktop"@),
        text::opt_text(entries[i].text) matches Some(file) && exec_command(file) is Some,
    ensures
        resolved(class, name, entries) is Some,
{
    lemma_first_command_exists(entries, named_command(class + ".desktop"@), i);
}

/// Whether a letter after `%` is one that the launcher of an app fills in.
pub open spec fn is_filled_in(c: char) -> bool {
    "fFuUdDnNickvm"@.contains(c)
}

proof fn lemma_field_codes(c: char)
    ensures
        is_filled_in(c) <==> is_field_code(c),
{
    reveal_strlit("fFuUdDnNickvm");
    let all = "fFuUdDnNickvm"@;
    if is_field_code(c) {
        assert(all[0] == 'f' && all[1] == 'F' && all[2] == 'u' && all[3] == 'U' && all[4] == 'd'
            && all[5] == 'D' && all[6] == 'n' && all[7] == 'N' && all[8] == 'i' && all[9] == 'c'
            && all[10] == 'k' && all[11] == 'v' && all[12] == 'm');
    }
}

proof fn lemma_stripped_prefix(a: Seq<char>, rest: Seq<char>)
    requires
        !a.contains('%'),
    ensures
        stripped(a + rest) == a + stripped(rest),
    decreases a.len(),
{
    if a.len() == 0 {
        assert(a + rest =~= rest);
        assert(a + stripped(rest) =~= stripped(rest));
    } else {
        let tail = a.skip(1);
        assert(a.contains(a[0]));
        assert(!tail.contains('%')) by {
            if tail.contains('%') {
                let j = choose|j: int| 0 <= j < tail.len() && tail[j] == '%';
                assert(a[j + 1] == '%');
            }
        }
        lemma_stripped_prefix(tail, rest);
        assert((a + rest)[0] == a[0]);
        assert((a + rest).skip(1) =~= tail + rest);
        assert(seq![a[0]] + (tail + stripped(rest)) =~= a + stripped(rest));
    }
}

/// Every field code disappears from a command line, wherever it stands: `%` with one
/// of the letters f, F, u, U, d, D, n, N, i, c, k, v and m.
pub proof fn law_field_codes_disappear(a: Seq<char>, c: char, b: Seq<char>)
    requires
        !a.contains('%'),
        c == 'f' || c == 'F' || c == 'u' || c == 'U' || c == 'd' || c == 'D' || c == 'n' || c == 'N'
            || c == 'i' || c == 'c' || c == 'k' || c == 'v' || c == 'm',
    ensures
        stripped(a + seq!['%', c] + b) == a + stripped(b),
{
    let rest = seq!['%', c] + b;
    assert(a + seq!['%', c] + b =~= a + rest);
    lemma_stripped_prefix(a, rest);
    assert(rest[0] == '%' && rest[1] == c);
    assert(rest.skip(2) =~= b);
}

/// A doubled percent sign stands for one.
pub proof fn law_doubled_percent_is_one(a: Seq<char>, b: Seq<char>)
    requires
        !a.contains('%'),
    ensures
        stripped(a + seq!['%', '%'] + b) == a + seq!['%'] + stripped(b),
{
    let rest = seq!['%', '%'] + b;
    assert(a + seq!['%', '%'] + b =~= a + rest);
    lemma_stripped_prefix(a, rest);
    assert(rest[0] == '%' && rest[1] == '%');
    assert(rest.skip(2) =~= b);
    assert(a + (seq!['%'] + stripped(b)) =~= a + seq!['%'] + stripped(b));
}

/// A percent sign before any other character, or at the end, stays.
pub proof fn law_other_percent_signs_stay(a: Seq<char>, c: char, b: Seq<char>)
    requires
        !a.contains('%'),
        c != '%',
        !is_filled_in(c),
    ensures
        stripped(a + seq!['%', c] + b) == a + seq!['%', c] + stripped(b),
        stripped(a + seq!['%']) == a + seq!['%'],
{
    lemma_field_codes(c);
    let rest = seq!['%', c] + b;
    assert(a + seq!['%', c] + b =~= a + rest);
    lemma_stripped_prefix(a, rest);
    assert(rest[0] == '%' && rest[1] == c);
    let tail = seq![c] + b;
    assert(rest.skip(1) =~= tail);
    assert(!seq![c].contains('%'));
    lemma_stripped_prefix(seq![c], b);
    assert(a + (seq!['%'] + (seq![c] + stripped(b))) =~= a + seq!['%', c] + stripped(b));
    lemma_stripped_prefix(a, seq!['%']);
    assert(seq!['%'].skip(1) =~= Seq::<char>::empty());
    assert(seq!['%'] + stripped(Seq::<char>::empty()) =~= seq!['%']);
}

/// Whether a text is one word of a command line: it is not empty, and holds neither
/// white space nor quotes.
pub open spec fn is_word(s: Seq<char>) -> bool {
    s.len() > 0 && forall|i: int|
        0 <= i < s.len() ==> !text::is_space(#[trigger] s[i]) && s[i] != '"'
}

proof fn lemma_word_goes_on(word: Seq<char>, rest: Seq<char>, quoted: bool, cur: Seq<char>)
    requires
        forall|i: int|
            0 <= i < word.len() ==> (#[trigger] word[i]) != '"' && (quoted || word[i] != ' '),
    ensures
        arguments(word + rest, quoted, cur) == arguments(rest, quoted, cur + word),
    decreases word.len(),
{
    if word.len() == 0 {
        assert(word + rest =~= rest);
        assert(cur + word =~= cur);
    } else {
        let tail = word.skip(1);
        assert((word + rest)[0] == word[0]);
        assert((word + rest).skip(1) =~= tail + rest);
        assert forall|i: int| 0 <= i < tail.len() implies (#[trigger] tail[i]) != '"' && (quoted
            || tail[i] != ' ') by {
            assert(tail[i] == word[i + 1]);
        }
        lemma_word_goes_on(tail, rest, quoted, cur.push(word[0]));
        assert(cur.push(word[0]) + tail =~= cur + word);
    }
}

/// The words of a command line are its arguments, in their order.
pub proof fn law_words_are_arguments(words: Seq<Seq<char>>)
    requires
        words.len() > 0,
        forall|i: int| 0 <= i < words.len() ==> is_word(#[trigger] words[i]),
    ensures
        argv(text::joined(words, " "@)) == words,
{
    reveal_strlit(" ");
    assert(" "@ =~= seq![' ']);
    let all = text::joined(words, " "@);
    lemma_joined_ends(words);
    text::law_trimmed_text_stays(all);
    lemma_words_are_arguments(words, Seq::empty());
    assert(all + Seq::<char>::empty() =~= all);
    assert(arguments(Seq::<char>::empty(), false, words.last()) =~= seq![words.last()]);
    assert(words.drop_last() + seq![words.last()] =~= words);
}

proof fn lemma_joined_ends(words: Seq<Seq<char>>)
    requires
        words.len() > 0,
        forall|i: int| 0 <= i < words.len() ==> is_word(#[trigger] words[i]),
    ensures
        ({
            let all = text::joined(words, " "@);
            all.len() > 0 && !text::is_space(all[0]) && !text::is_space(all.last())
        }),
    decreases words.len(),
{
    assert(is_word(words[words.len() - 1]));
    if words.len() > 1 {
        let front = words.drop_last();
        assert forall|i: int| 0 <= i < front.len() implies is_word(#[trigger] front[i]) by {
            assert(front[i] == words[i]);
        }
        lemma_joined_ends(front);
        let all = text::joined(words, " "@);
        assert(all[0] == text::joined(front, " "@)[0]);
        assert(all.last() == words.last().last());
    } else {
        assert(is_word(words[0]));
    }
}

proof fn lemma_words_are_arguments(words: Seq<Seq<char>>, rest: Seq<char>)
    requires
        words.len() > 0,
        forall|i: int| 0 <= i < words.len() ==> is_word(#[trigger] words[i]),
    ensures
        arguments(text::joined(words, seq![' ']) + rest, false, Seq::empty()) == words.drop_last()
            + arguments(rest, false, words.last()),
    decreases words.len(),
{
    let last = words.last();
    assert(is_word(words[words.len() - 1]));
    assert forall|i: int| 0 <= i < last.len() implies (#[trigger] last[i]) != '"' && last[i]
        != ' ' by {
        assert(!text::is_space(last[i]));
    }
    let none = Seq::<char>::empty();
    if words.len() == 1 {
        lemma_word_goes_on(last, rest, false, none);
        assert(none + last =~= last);
        assert(words.drop_last() + arguments(rest, false, last) =~= arguments(rest, false, last));
    } else {
        let front = words.drop_last();
        assert forall|i: int| 0 <= i < front.len() implies is_word(#[trigger] front[i]) by {
            assert(front[i] == words[i]);
        }
        let tail = seq![' '] + (last + rest);
        assert(text::joined(words, seq![' ']) + rest =~= text::joined(front, seq![' ']) + tail);
        lemma_words_are_arguments(front, tail);
        let cur = front.last();
        assert(is_word(front[front.len() - 1]));
        assert(tail[0] == ' ');
        assert(tail.skip(1) =~= last + rest);
        lemma_word_goes_on(last, rest, false, none);
        assert(none + last =~= last);
        assert(arguments(tail, false, cur) == seq![cur] + arguments(rest, false, last));
        assert(front.drop_last() + (seq![cur] + arguments(rest, false, last)) =~= front
            + arguments(rest, false, last));
    }
}

/// What stands in double quotes is one argument, with its spaces.
pub proof fn law_quotes_keep_an_argument_together(a: Seq<char>)
    requires
        a.len() > 0,
        !a.contains('"'),
    ensures
        argv(seq!['"'] + a + seq!['"']) == seq![a],
{
    let all = seq!['"'] + a + seq!['"'];
    text::law_trimmed_text_stays(all);
    assert(all[0] == '"');
    assert(all.skip(1) =~= a + seq!['"']);
    assert forall|i: int| 0 <= i < a.len() implies (#[trigger] a[i]) != '"' by {
        assert(a.contains(a[i]));
    }
    lemma_word_goes_on(a, seq!['"'], true, Seq::empty());
    assert(Seq::<char>::empty() + a =~= a);
    assert(seq!['"'].skip(1) =~= Seq::<char>::empty());
    assert(arguments(Seq::<char>::empty(), false, a) == seq![a]);
    assert(arguments(seq!['"'], true, a) == arguments(Seq::<char>::empty(), false, a));
}

proof fn lemma_lines_of_joined(lines: Seq<Seq<char>>)
    requires
        lines.len() > 0,
        forall|i: int|
            0 <= i < lines.len() ==> !(#[trigger] lines[i]).contains('\n') && text::trimmed(lines[i])
                == lines[i],
    ensures
        lines_of(text::joined(lines, "\n"@)) == lines,
{
    reveal_strlit("\n");
    assert("\n"@ =~= seq!['\n']);
    text::law_join_then_split(lines, '\n');
    assert(lines_of(text::joined(lines, "\n"@)) =~= lines);
}

/// A key is read from the section `[Desktop Entry]`: the first line there that gives
/// it has its value, without the white space around it.
pub proof fn law_first_value_counts(
    lines: Seq<Seq<char>>,
    head: int,
    at: int,
    key: Seq<char>,
    value: Seq<char>,
)
    requires
        0 <= head < at < lines.len(),
        forall|i: int|
            0 <= i < lines.len() ==> !(#[trigger] lines[i]).contains('\n') && text::trimmed(lines[i])
                == lines[i],
        lines[head] == "[Desktop Entry]"@,
        forall|i: int|
            0 <= i < head ==> (#[trigger] lines[i]) != "[Desktop Entry]"@,
        forall|i: int|
            head < i < at ==> !text::begins(#[trigger] lines[i], "["@) && !text::begins(
                lines[i],
                key + "="@,
            ),
        lines[at] == key + "="@ + value,
        key.len() > 0 && key[0] != '[',
    ensures
        value_of(text::joined(lines, "\n"@), key) == Some(text::trimmed(value)),
{
    reveal_strlit("[");
    reveal_strlit("=");
    lemma_lines_of_joined(lines);
    let want = key + "="@;
    text::law_prefix_is_taken_off(lines[at], want, value);
    assert forall|k: int| head < k < at implies !is_header(#[trigger] lines[k]) by {
        if is_header(lines[k]) {
            assert("["@ =~= seq!['[']);
            assert(lines[k] =~= "["@ + lines[k].skip(1));
        }
    }
    assert(lines[at][0] == key[0]);
    assert(in_main_section(lines, at));
    assert(gives_key(lines, at, key));
    assert forall|j: int| 0 <= j < at implies !gives_key(lines, j, key) by {
        if j > head {
            text::law_prefix_is_taken_off(lines[j], want, Seq::empty());
        } else if gives_key(lines, j, key) {
            let h = choose|h: int|
                0 <= h < j && #[trigger] lines[h] == "[Desktop Entry]"@ && forall|k: int|
                    h < k < j ==> !is_header(#[trigger] lines[k]);
            assert(lines[h] != "[Desktop Entry]"@);
        }
    }
    assert(first_with_key(lines, at, key));
    let i = choose|i: int| first_with_key(lines, i, key);
    assert(first_with_key(lines, i, key));
    if i < at {
        assert(!gives_key(lines, i, key));
    } else if at < i {
        assert(!gives_key(lines, at, key));
    }
}

/// A file without the section `[Desktop Entry]` has no value for any key.
pub proof fn law_other_sections_do_not_count(lines: Seq<Seq<char>>, key: Seq<char>)
    requires
        lines.len() > 0,
        forall|i: int|
            0 <= i < lines.len() ==> !(#[trigger] lines[i]).contains('\n') && text::trimmed(lines[i])
                == lines[i] && lines[i] != "[Desktop Entry]"@,
    ensures
        value_of(text::joined(lines, "\n"@), key) is None,
{
    lemma_lines_of_joined(lines);
    if exists|i: int| first_with_key(lines, i, key) {
        let i = choose|i: int| first_with_key(lines, i, key);
        assert(gives_key(lines, i, key));
        let h = choose|h: int|
            0 <= h < i && #[trigger] lines[h] == "[Desktop Entry]"@ && forall|k: int|
                h < k < i ==> !is_header(#[trigger] lines[k]);
        assert(lines[h] != "[Desktop Entry]"@);
    }
}

/// Whether an entry names the class of its windows as `class`, but for the case of
/// ASCII letters.
pub open spec fn names_class(e: DesktopFile, class: Seq<char>) -> bool {
    text::opt_text(e.text) matches Some(file) && value_of(
        file,
        "StartupWMClass"@,
    ) matches Some(v) && text::ascii_lowered(v) == text::ascii_lowered(class)
}

/// Whether an entry says what to run.
pub open spec fn says_what_to_run(e: DesktopFile) -> bool {
    text::opt_text(e.text) matches Some(file) && exec_command(file) is Some
}

/// The first entry that names the class and says what to run decides, whatever the
/// files are called.
pub proof fn law_first_entry_of_the_class_wins(
    class: Seq<char>,
    name: Seq<char>,
    entries: Seq<DesktopFile>,
    i: int,
)
    requires
        0 <= i < entries.len(),
        names_class(entries[i], class),
        says_what_to_run(entries[i]),
        forall|j: int|
            0 <= j < i ==> !(names_class(#[trigger] entries[j], class) && says_what_to_run(
                entries[j],
            )),
    ensures
        resolved(class, name, entries) == exec_command(text::opt_text(entries[i].text)->0),
    decreases entries.len(),
{
    lemma_first_is_taken(entries, class_command(class), i);
}

/// Where no entry names the class and says what to run, the first one whose file has
/// the name decides.
pub proof fn law_first_entry_of_the_name_is_next(
    class: Seq<char>,
    name: Seq<char>,
    entries: Seq<DesktopFile>,
    i: int,
)
    requires
        0 <= i < entries.len(),
        forall|j: int|
            0 <= j < entries.len() ==> !(names_class(#[trigger] entries[j], class)
                && says_what_to_run(entries[j])),
        says_what_to_run(entries[i]),
        text::opt_text(entries[i].file_name) matches Some(f) && text::ascii_lowered(f)
            == text::ascii_lowered(name),
        forall|j: int|
            0 <= j < i ==> !(says_what_to_run(#[trigger] entries[j]) && (text::opt_text(
                entries[j].file_name,
            ) matches Some(f) && text::ascii_lowered(f) == text::ascii_lowered(name))),
    ensures
        resolved(class, name, entries) == exec_command(text::opt_text(entries[i].text)->0),
{
    lemma_first_command_is_one(entries, class_command(class));
    if first_command(entries, class_command(class)) is Some {
        let j = choose|j: int|
            0 <= j < entries.len() && class_command(class)(#[trigger] entries[j]) is Some;
        assert(names_class(entries[j], class) && says_what_to_run(entries[j]));
    }
    lemma_first_is_taken(entries, named_command(name), i);
}

/// Where no entry names the class and no file has a name of it, there is no command.
pub proof fn law_unknown_classes_have_no_command(
    class: Seq<char>,
    name: Seq<char>,
    entries: Seq<DesktopFile>,
)
    requires
        forall|j: int| 0 <= j < entries.len() ==> !names_class(#[trigger] entries[j], class),
        forall|j: int|
            0 <= j < entries.len() ==> (text::opt_text((#[trigger] entries[j]).file_name) matches Some(
                f,
            ) ==> text::ascii_lowered(f) != text::ascii_lowered(name) && text::ascii_lowered(f)
                != text::ascii_lowered(class + ".desktop"@)),
    ensures
        resolved(class, name, entries) is None,
{
    lemma_first_command_is_one(entries, class_command(class));
    lemma_first_command_is_one(entries, named_command(name));
    lemma_first_command_is_one(entries, named_command(class + ".desktop"@));
    assert forall|j: int| 0 <= j < entries.len() implies class_command(class)(
        #[trigger] entries[j],
    ) is None && named_command(name)(entries[j]) is None && named_command(class + ".desktop"@)(
        entries[j],
    ) is None by {
        assert(!names_class(entries[j], class));
    }
}

proof fn lemma_first_is_taken(
    entries: Seq<DesktopFile>,
    of: spec_fn(DesktopFile) -> Option<Seq<Seq<char>>>,
    i: int,
)
    requires
        0 <= i < entries.len(),
        of(entries[i]) is Some,
        forall|j: int| 0 <= j < i ==> of(#[trigger] entries[j]) is None,
    ensures
        first_command(entries, of) == of(entries[i]),
    decreases entries.len(),
{
    if i > 0 {
        assert(of(entries[0]) is None);
        let rest = entries.skip(1);
        assert(rest[i - 1] == entries[i]);
        assert forall|j: int| 0 <= j < i - 1 implies of(#[trigger] rest[j]) is None by {
            assert(rest[j] == entries[j + 1]);
        }
        lemma_first_is_taken(rest, of, i - 1);
    }
}

/// The desktop files of several directories are those called `*.desktop`, directory
/// by directory; a directory that cannot be listed gives none.
pub proof fn law_directories_are_listed_in_order<P>(
    listings: Seq<Option<Vec<DirEntry<P>>>>,
    last: Option<Vec<DirEntry<P>>>,
)
    ensures
        ({
            let all = desktop_files(listings.push(last));
            let before = desktop_files(listings);
            &&& last is None ==> all == before
            &&& before.len() <= all.len() && all.take(before.len() as int) == before
            &&& forall|i: int|
                before.len() <= i < all.len() ==> last is Some && last->0@.contains(
                    #[trigger] all[i],
                ) && text::opt_text(all[i].extension) == Some("desktop"@)
            &&& last matches Some(files) ==> forall|i: int|
                0 <= i < files@.len() && text::opt_text((#[trigger] files@[i]).extension) == Some(
                    "desktop"@,
                ) ==> all.contains(files@[i])
        }),
{
    let all = desktop_files(listings.push(last));
    let before = desktop_files(listings);
    assert(listings.push(last).drop_last() =~= listings);
    assert(all.take(before.len() as int) =~= before);
    match last {
        None => {
            assert(all =~= before);
        },
        Some(files) => {
            let kept = files@.filter(is_desktop_file());
            assert(all == before + kept);
            assert forall|i: int| before.len() <= i < all.len() implies files@.contains(
                #[trigger] all[i],
            ) && text::opt_text(all[i].extension) == Some("desktop"@) by {
                let k = i - before.len();
                assert(all[i] == kept[k]);
                files@.lemma_filter_pred(is_desktop_file(), k);
                assert(kept.contains(kept[k]));
                files@.lemma_filter_contains_rev(is_desktop_file(), kept[k]);
            }
            assert forall|i: int|
                0 <= i < files@.len() && text::opt_text((#[trigger] files@[i]).extension) == Some(
                    "desktop"@,
                ) implies all.contains(files@[i]) by {
                files@.lemma_filter_contains(is_desktop_file(), i);
                let k = choose|k: int| 0 <= k < kept.len() && kept[k] == files@[i];
                assert(all[before.len() + k] == files@[i]);
            }
        },
    }
}

/// The user's own desktop entries come before those of the system, those of Flatpak
/// before those that were installed locally.
pub proof fn law_own_entries_come_first(home: Seq<char>)
    ensures
        ({
            let system = application_dirs(None);
            let all = application_dirs(Some(home));
            &&& system.len() == 3
            &&& system[0] == "/usr/share/applications"@
            &&& system[1] == "/var/lib/flatpak/exports/share/applications"@
            &&& system[2] == "/usr/local/share/applications"@
            &&& all.len() == 4
            &&& all[0] == paths::joined_path(home, ".local/share/applications"@)
            &&& all.skip(1) == system
        }),
{
    assert(application_dirs(Some(home)).skip(1) =~= application_dirs(None));
}

/// A class has a command wherever a desktop file that says what to run is called like
/// it, in whatever case its ASCII letters are in the name of the file.
pub proof fn law_classes_are_looked_for_by_file_name(
    class: &str,
    entries: &Vec<DesktopFile>,
    r: Option<Vec<String>>,
    i: int,
)
    requires
        call_ensures(resolve_by_class, (class, entries), r),
        0 <= i < entries@.len(),
        text::opt_text(entries@[i].file_name) matches Some(f) && text::ascii_lowered(f)
            == text::ascii_lowered(class@ + ".desktop"@),
        says_what_to_run(entries@[i]),
    ensures
        r is Some,
{
    law_file_named_after_the_class_is_found(
        class@,
        lowercase_of(class@) + ".desktop"@,
        entries@,
        i,
    );
}

/// A value of `Exec` is run as it stands there, but for its field codes: one more of
/// them changes nothing, and the words of a line without any are the command. A line
/// without words is no command.
pub proof fn law_commands_are_what_exec_says(
    words: Seq<Seq<char>>,
    a: Seq<char>,
    c: char,
    b: Seq<char>,
)
    requires
        words.len() > 0,
        forall|i: int| 0 <= i < words.len() ==> is_word(#[trigger] words[i]),
        !text::joined(words, " "@).contains('%'),
        !a.contains('%'),
        is_filled_in(c),
    ensures
        command(text::joined(words, " "@)) == Some(words),
        command(a + seq!['%', c] + b) == command(a + b),
        command(Seq::empty()) is None,
{
    lemma_field_codes(c);
    law_text_without_percent_is_kept(text::joined(words, " "@));
    law_words_are_arguments(words);
    law_field_codes_disappear(a, c, b);
    lemma_stripped_prefix(a, b);
    assert(stripped(Seq::<char>::empty()).len() == 0);
}

} // verus!
