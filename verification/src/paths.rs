//! Where sessions and configuration live.

use vstd::prelude::*;

use crate::text;

verus! {

/// The path of `rel` seen from the directory `base`: `rel` itself where it is
/// absolute, else the two with one separator between them.
pub open spec fn joined_path(base: Seq<char>, rel: Seq<char>) -> Seq<char> {
    if rel.len() > 0 && rel[0] == '/' {
        rel
    } else if base.len() == 0 || base.last() == '/' {
        base + rel
    } else {
        base + seq!['/'] + rel
    }
}

/// The path of `rel` seen from the directory `base`.
pub fn join_path(base: &str, rel: &str) -> (r: String)
    ensures
        r@ == joined_path(base@, rel@),
{
    let b: Vec<char> = text::chars_of(base);
    let t: Vec<char> = text::chars_of(rel);
    if t.len() > 0 && t[0] == '/' {
        rel.to_owned()
    } else if b.len() == 0 || b[b.len() - 1] == '/' {
        text::join2(base, rel)
    } else {
        let mut s: String = base.to_owned();
        s.push('/');
        assert(s@ + rel@ =~= base@ + seq!['/'] + rel@);
        text::join2(s.as_str(), rel)
    }
}

/// The user's home directory, or the directory that stands in for it where the
/// environment names none.
pub open spec fn home_dir(home: Option<Seq<char>>) -> Seq<char> {
    match home {
        Some(h) => h,
        None => "/tmp"@,
    }
}

fn home_or_tmp(home: Option<String>) -> (r: String)
    ensures
        r@ == home_dir(text::opt_text(home)),
{
    match home {
        Some(h) => h,
        None => "/tmp".to_owned(),
    }
}

/// The directory that sessions are stored in.
pub fn session_dir(home: Option<String>) -> (r: String)
    ensures
        r@ == joined_path(home_dir(text::opt_text(home)), ".local/share/hypr-recall"@),
{
    join_path(home_or_tmp(home).as_str(), ".local/share/hypr-recall")
}

/// The path of the configuration file.
pub fn config_path(home: Option<String>) -> (r: String)
    ensures
        r@ == joined_path(home_dir(text::opt_text(home)), ".config/hypr-recall/config.toml"@),
{
    join_path(home_or_tmp(home).as_str(), ".config/hypr-recall/config.toml")
}

/// Which file a command works on: one that the user gave, or one in the session
/// directory.
#[derive(Debug, Clone, PartialEq)]
pub enum SessionPath<P> {
    /// The file that the user gave, as it was given.
    Explicit(P),
    /// The path of a named session.
    Named(String),
}

/// The path of the session with the given name.
pub open spec fn named_path(home: Option<Seq<char>>, name: Option<Seq<char>>) -> Seq<char> {
    let stem = match name {
        Some(n) => n,
        None => "session"@,
    };
    joined_path(
        joined_path(home_dir(home), ".local/share/hypr-recall"@),
        stem + ".json"@,
    )
}

/// The file to work on: an explicit file wins over a name, and the name defaults
/// to `session`.
pub fn session_path<P>(name: Option<String>, file: Option<P>, home: Option<String>) -> (r:
    SessionPath<P>)
    ensures
        match file {
            Some(p) => r == SessionPath::Explicit(p),
            None => r matches SessionPath::Named(s) && s@ == named_path(
                text::opt_text(home),
                text::opt_text(name),
            ),
        },
{
    match file {
        Some(p) => SessionPath::Explicit(p),
        None => {
            let stem: String = match name {
                Some(n) => n,
                None => "session".to_owned(),
            };
            let leaf: String = text::join2(stem.as_str(), ".json");
            SessionPath::Named(join_path(session_dir(home).as_str(), leaf.as_str()))
        },
    }
}

/// A relative path is put below the directory, with one slash between them; an
/// absolute path is taken as it is.
pub proof fn law_paths_are_joined_by_one_slash(base: Seq<char>, rel: Seq<char>)
    requires
        rel.len() > 0,
    ensures
        rel[0] == '/' ==> joined_path(base, rel) == rel,
        rel[0] != '/' && base.len() > 0 && base.last() != '/' ==> joined_path(base, rel) == base
            + "/"@ + rel,
        rel[0] != '/' && base.len() > 0 && base.last() == '/' ==> joined_path(base, rel) == base
            + rel,
        rel[0] != '/' && base.len() == 0 ==> joined_path(base, rel) == rel,
{
    reveal_strlit("/");
    assert("/"@ =~= seq!['/']);
    if base.len() == 0 {
        assert(base + rel =~= rel);
    }
}

/// A named session is the file `<name>.json` in the directory of the sessions; without
/// a name it is `session.json`.
pub proof fn law_sessions_are_named_files(home: Seq<char>, name: Seq<char>)
    requires
        home.len() > 0 && home.last() != '/',
        name.len() > 0 && name[0] != '/',
    ensures
        named_path(Some(home), Some(name)) == home + "/.local/share/hypr-recall/"@ + name + ".json"@,
        named_path(Some(home), None) == home + "/.local/share/hypr-recall/session.json"@,
        named_path(None, Some(name)) == "/tmp/.local/share/hypr-recall/"@ + name + ".json"@,
{
    reveal_strlit("/");
    reveal_strlit("/tmp");
    reveal_strlit("session");
    reveal_strlit(".json");
    reveal_strlit(".local/share/hypr-recall");
    reveal_strlit("/.local/share/hypr-recall/");
    reveal_strlit("/.local/share/hypr-recall/session.json");
    reveal_strlit("/tmp/.local/share/hypr-recall/");
    let dir = home + seq!['/'] + ".local/share/hypr-recall"@;
    assert(joined_path(home, ".local/share/hypr-recall"@) == dir);
    assert(dir.last() == 'l');
    assert((name + ".json"@)[0] == name[0]);
    assert(named_path(Some(home), Some(name)) =~= home + "/.local/share/hypr-recall/"@ + name
        + ".json"@);
    assert(("session"@ + ".json"@)[0] == 's');
    assert(named_path(Some(home), None) =~= home + "/.local/share/hypr-recall/session.json"@);
    let tmp = "/tmp"@ + seq!['/'] + ".local/share/hypr-recall"@;
    assert(joined_path("/tmp"@, ".local/share/hypr-recall"@) == tmp);
    assert(tmp.last() == 'l');
    assert(named_path(None, Some(name)) =~= "/tmp/.local/share/hypr-recall/"@ + name + ".json"@);
}

/// Sessions and the configuration lie below the user's home directory, and below
/// `/tmp` where there is none.
pub proof fn law_files_lie_below_the_home_directory(
    home: Option<String>,
    sessions: String,
    config: String,
)
    requires
        call_ensures(session_dir, (home,), sessions),
        call_ensures(config_path, (home,), config),
    ensures
        sessions@ == (match home {
            Some(h) => joined_path(h@, ".local/share/hypr-recall"@),
            None => joined_path("/tmp"@, ".local/share/hypr-recall"@),
        }),
        config@ == (match home {
            Some(h) => joined_path(h@, ".config/hypr-recall/config.toml"@),
            None => joined_path("/tmp"@, ".config/hypr-recall/config.toml"@),
        }),
{
}

} // verus!
