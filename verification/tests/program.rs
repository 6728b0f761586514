use hypr_recall::collections::{ClassMap, TextSet};
use hypr_recall::color::{colorize, gradient, hr, hr_err, version};
use hypr_recall::delete::Delete;
use hypr_recall::edit::{launch_failed, Edit};
use hypr_recall::list::{format_age, list_line, session_summary, DirFile};
use hypr_recall::lock::{lock_contents, temp_extension, LockAction, LockGuard, LockReply};
use hypr_recall::order::{stable_sort, Sortable};
use hypr_recall::paths::{config_path, join_path, session_dir, session_path, SessionPath};
use hypr_recall::session::{Session, WindowEntry, WorkspaceEntry, SESSION_VERSION};
use hypr_recall::status::file_age;
use hypr_recall::text::{
    contains, eq_ignore_ascii_case, i32_text, is_whitespace, join, pad_right, parse_u32,
    plural_ending, split_on, strip_prefix, trim, trim_end_matches, u64_text,
};
use hypr_recall::{delete, edit, list, status};

#[test]
fn whitespace_is_what_char_says() {
    for c in '\0'..=char::MAX {
        assert_eq!(is_whitespace(c), c.is_whitespace(), "{c:?}");
    }
}

#[test]
fn trimming() {
    assert_eq!(trim(" \t a b\u{2003}\n"), "a b");
    assert_eq!(trim("   "), "");
    assert_eq!(trim_end_matches("x (deleted) (deleted)", " (deleted)"), "x");
    assert_eq!(trim_end_matches(" (deleted)x", " (deleted)"), " (deleted)x");
    assert_eq!(strip_prefix("key=value", "key=").unwrap(), "value");
    assert!(strip_prefix("key", "key=").is_none());
}

#[test]
fn splitting_and_joining() {
    let parts = split_on("a,,b", ',');
    assert_eq!(parts, vec!["a", "", "b"]);
    assert_eq!(join(&parts, ","), "a,,b");
    assert_eq!(split_on("", ','), vec![""]);
    assert_eq!(join(&Vec::new(), ","), "");
}

#[test]
fn numbers_as_text_and_back() {
    assert_eq!(u64_text(0), "0");
    assert_eq!(u64_text(u64::MAX), u64::MAX.to_string());
    assert_eq!(i32_text(i32::MIN), i32::MIN.to_string());
    assert_eq!(i32_text(-7), "-7");
    assert_eq!(parse_u32("4294967295"), Some(u32::MAX));
    assert_eq!(parse_u32("4294967296"), None);
    assert_eq!(parse_u32("+7"), "+7".parse::<u32>().ok());
    for text in ["", "+", "-1", "1a", " 1", "007", "0"] {
        assert_eq!(parse_u32(text), text.parse::<u32>().ok(), "{text:?}");
    }
}

#[test]
fn small_helpers() {
    assert_eq!(pad_right("ab", 4), "ab  ");
    assert_eq!(pad_right("abcd", 3), "abcd");
    assert_eq!(pad_right("äö", 4), format!("{:<4}", "äö"));
    assert_eq!(plural_ending(1), "");
    assert_eq!(plural_ending(0), "s");
    assert!(eq_ignore_ascii_case("FireFox", "fIREfOX"));
    assert!(!eq_ignore_ascii_case("Ä", "ä"));
    assert!(contains(&["a".to_owned(), "b".to_owned()], "b"));
    assert!(!contains(&["a".to_owned()], "b"));
}

#[test]
fn maps_and_sets_of_text() {
    let mut map: ClassMap<i32> = ClassMap::new();
    assert!(map.is_empty());
    map.insert("a".to_owned(), 1);
    map.insert("b".to_owned(), 2);
    map.insert("a".to_owned(), 3);
    assert_eq!(map.get("a"), Some(&3));
    map.remove("a");
    assert!(map.get("a").is_none());
    assert_eq!(map.get("b"), Some(&2));
    assert!(!map.is_empty());

    let mut set = TextSet::new();
    assert!(set.insert("a".to_owned()));
    assert!(!set.insert("a".to_owned()));
    assert_eq!(set.len(), 1);
    assert!(set.remove("a"));
    assert!(!set.remove("a"));
    assert_eq!(set.len(), 0);
}

#[test]
fn sorting_is_stable() {
    let entry = |workspace: i32, class: &str| WorkspaceEntry::<f64> {
        workspace,
        windows: vec![WindowEntry {
            class: class.to_owned(),
            exe: String::new(),
            launch_args: None,
            col_width: 0.5,
        }],
    };
    let mut v = vec![entry(2, "a"), entry(1, "b"), entry(2, "c"), entry(1, "d")];
    stable_sort(&mut v);
    let order: Vec<&str> = v.iter().map(|w| w.windows[0].class.as_str()).collect();
    assert_eq!(order, vec!["b", "d", "a", "c"]);
    assert!(entry(2, "a").ranks_after(&entry(1, "a")));
    assert!(!entry(1, "a").ranks_after(&entry(1, "b")));
}

#[test]
fn paths_below_home() {
    let home = Some("/home/me".to_owned());
    assert_eq!(
        session_dir(home.clone()),
        "/home/me/.local/share/hypr-recall"
    );
    assert_eq!(
        config_path(home.clone()),
        "/home/me/.config/hypr-recall/config.toml"
    );
    assert_eq!(session_dir(None), "/tmp/.local/share/hypr-recall");
    assert_eq!(join_path("/a/", "b"), "/a/b");
    assert_eq!(join_path("/a", "/b"), "/b");
    assert_eq!(
        session_path::<&str>(None, None, home.clone()),
        SessionPath::Named("/home/me/.local/share/hypr-recall/session.json".to_owned())
    );
    assert_eq!(
        session_path::<&str>(Some("work".to_owned()), None, home.clone()),
        SessionPath::Named("/home/me/.local/share/hypr-recall/work.json".to_owned())
    );
    assert_eq!(
        session_path(Some("work".to_owned()), Some("my.json"), home),
        SessionPath::Explicit("my.json")
    );
}

#[test]
fn ages() {
    assert_eq!(format_age(None), "just now");
    assert_eq!(format_age(Some(59)), "just now");
    assert_eq!(format_age(Some(60)), "1 min ago");
    assert_eq!(format_age(Some(3599)), "59 min ago");
    assert_eq!(format_age(Some(3600)), "1 hr ago");
    assert_eq!(format_age(Some(86399)), "23 hr ago");
    assert_eq!(format_age(Some(86400)), "1 days ago");
    assert_eq!(
        file_age("/x/work.json", Some(Some(120))),
        "session saved 2 min ago"
    );
    assert_eq!(
        file_age("/x/work.json", Some(None)),
        "session saved just now"
    );
    assert_eq!(file_age("/x/work.json", None), "session at /x/work.json");
}

fn dir_file(stem: &str, extension: Option<&str>, modified: Option<i64>) -> DirFile<String> {
    DirFile {
        stem: Some(stem.to_owned()),
        extension: extension.map(str::to_owned),
        path: format!("/s/{stem}"),
        modified,
    }
}

#[test]
fn sessions_are_listed_newest_first() {
    let listed = list::run(Some(vec![
        dir_file("old", Some("json"), Some(-5)),
        dir_file("restore", Some("json"), Some(9)),
        dir_file("restore", Some("lock"), Some(9)),
        dir_file("notes", None, Some(9)),
        dir_file("unreadable", Some("json"), None),
        dir_file("new", Some("json"), Some(7)),
        dir_file("twin", Some("json"), Some(7)),
    ]));
    let names: Vec<&str> = listed.iter().map(|l| l.name.as_str()).collect();
    assert_eq!(names, vec!["restore", "new", "twin", "old"]);
    assert_eq!(listed[1].path, "/s/new");
    assert!(list::run::<String>(None).is_empty());
    assert!(list::run::<String>(Some(Vec::new())).is_empty());
}

fn shown() -> Session<String> {
    let window = |class: &str, percent: &str| WindowEntry {
        class: class.to_owned(),
        exe: String::new(),
        launch_args: None,
        col_width: percent.to_owned(),
    };
    Session {
        version: SESSION_VERSION,
        active_workspace: 2,
        workspaces: vec![
            WorkspaceEntry {
                workspace: 1,
                windows: vec![window("a", "50"), window("b", "99")],
            },
            WorkspaceEntry {
                workspace: 2,
                windows: vec![window("c", "100")],
            },
        ],
    }
}

#[test]
fn list_lines() {
    assert_eq!(
        session_summary(Some(&shown())),
        "2 workspaces, 3 windows"
    );
    let mut one = shown();
    one.workspaces.remove(0);
    assert_eq!(session_summary(Some(&one)), "1 workspace, 1 window");
    assert_eq!(session_summary::<f64>(None), "(unreadable)");
    assert_eq!(
        list_line("work", "1 min ago", "(unreadable)"),
        format!("  {:<20} {:<16} {}", "work", "1 min ago", "(unreadable)")
    );
}

#[test]
fn status_lines() {
    assert_eq!(
        status::run(&shown(), "session saved just now"),
        vec![
            "session saved just now (2 workspaces, 3 windows)".to_owned(),
            "\n  workspace 1".to_owned(),
            format!("    {:<40} 50%", "a"),
            format!("    {:<40} 99%", "b"),
            "\n  workspace 2  ← active".to_owned(),
            format!("    {:<40} 100%", "c"),
        ]
    );
}

#[test]
fn lock_is_taken_where_there_is_none() {
    let (mut guard, first) = LockGuard::acquire();
    assert_eq!(first, LockAction::Link);
    assert_eq!(guard.follow("/l", LockReply::Linked), LockAction::Taken);
}

#[test]
fn held_locks_are_left_alone() {
    let (mut guard, _) = LockGuard::acquire();
    assert_eq!(
        guard.follow("/l", LockReply::Exists { held: true }),
        LockAction::Fail("restore already running (remove /l to override)".to_owned())
    );
}

#[test]
fn stale_locks_are_cleared_a_few_times() {
    let (mut guard, _) = LockGuard::acquire();
    for _ in 0..4 {
        assert_eq!(
            guard.follow("/l", LockReply::Exists { held: false }),
            LockAction::ClearAndLink
        );
    }
    assert_eq!(
        guard.follow("/l", LockReply::Exists { held: false }),
        LockAction::ClearAndFail("could not acquire lock at /l".to_owned())
    );
    let (mut guard, _) = LockGuard::acquire();
    assert_eq!(
        guard.follow("/l", LockReply::Failed("disk full".to_owned())),
        LockAction::Fail("disk full".to_owned())
    );
}

/// Takes a lock that is kept in memory.
fn acquire(
    lock: &mut Option<String>,
    pid: u32,
    runs: impl Fn(u32) -> bool,
) -> Result<(), String> {
    let (mut guard, mut action) = LockGuard::acquire();
    loop {
        match action {
            LockAction::Taken => return Ok(()),
            LockAction::Fail(e) => return Err(e),
            LockAction::ClearAndFail(e) => {
                *lock = None;
                return Err(e);
            }
            LockAction::ClearAndLink => *lock = None,
            LockAction::Link => {}
        }
        let reply = if lock.is_none() {
            *lock = Some(lock_contents(pid));
            LockReply::Linked
        } else {
            let alive = LockGuard::holder(lock.as_deref()).is_some_and(&runs);
            LockReply::Exists {
                held: LockGuard::is_held(lock.as_deref(), alive),
            }
        };
        action = guard.follow("/l", reply);
    }
}

#[test]
fn live_holder_blocks_acquire() {
    let mut lock = Some("42".to_owned());
    assert!(acquire(&mut lock, 7, |pid| pid == 42).is_err());
    assert_eq!(lock.as_deref(), Some("42"), "the lock is left as it is");
}

#[test]
fn stale_pid_is_reclaimed() {
    // PID 0 never names a real process, so the lock is stale.
    let mut lock = Some("0".to_owned());
    assert!(
        acquire(&mut lock, 7, |pid| pid == 7).is_ok(),
        "stale lock should be reclaimed"
    );
    assert_eq!(lock.as_deref(), Some("7"));
}

#[test]
fn garbage_lock_is_reclaimed() {
    for garbage in ["not-a-pid", ""] {
        let mut lock = Some(garbage.to_owned());
        assert!(acquire(&mut lock, 7, |_| true).is_ok());
        assert_eq!(lock.as_deref(), Some("7"));
    }
}

/// A taker of a lock in memory that acts one step at a time.
struct Racer {
    pid: u32,
    guard: LockGuard,
    action: LockAction,
    /// Whether there was a lock at the last try, which is to be looked at.
    looking: bool,
    result: Option<Result<(), String>>,
}

impl Racer {
    fn new(pid: u32) -> Self {
        let (guard, action) = LockGuard::acquire();
        Self {
            pid,
            guard,
            action,
            looking: false,
            result: None,
        }
    }

    fn step(&mut self, lock: &mut Option<String>) {
        if self.result.is_some() {
            return;
        }
        if self.looking {
            self.looking = false;
            let runs = LockGuard::holder(lock.as_deref()).is_some();
            let held = LockGuard::is_held(lock.as_deref(), runs);
            self.action = self.guard.follow("/l", LockReply::Exists { held });
        } else if self.action == LockAction::ClearAndLink {
            *lock = None;
            self.action = LockAction::Link;
        } else if lock.is_none() {
            *lock = Some(lock_contents(self.pid));
            self.action = self.guard.follow("/l", LockReply::Linked);
        } else {
            self.looking = true;
        }
        match &self.action {
            LockAction::Taken => self.result = Some(Ok(())),
            LockAction::Fail(e) => self.result = Some(Err(e.clone())),
            LockAction::ClearAndFail(e) => {
                *lock = None;
                self.result = Some(Err(e.clone()));
            }
            LockAction::Link | LockAction::ClearAndLink => {}
        }
    }
}

#[test]
fn concurrent_acquire_yields_exactly_one_winner() {
    // Eight takers act in turn, in orders that differ from round to round.
    for stride in [1, 3, 5, 7] {
        for first in 0..8 {
            let mut lock = None;
            let mut racers: Vec<Racer> = (1..=8).map(Racer::new).collect();
            for n in 0..64 {
                racers[(first + n * stride + n / 8) % 8].step(&mut lock);
            }
            assert!(racers.iter().all(|r| r.result.is_some()));
            let won: Vec<u32> = racers
                .iter()
                .filter(|r| r.result == Some(Ok(())))
                .map(|r| r.pid)
                .collect();
            assert_eq!(
                won.len(),
                1,
                "exactly one racing acquirer may hold the lock"
            );
            assert_eq!(lock, Some(won[0].to_string()));
        }
    }
}

#[test]
fn holders_of_locks() {
    assert_eq!(LockGuard::holder(Some(" 42\n")), Some(42));
    assert_eq!(LockGuard::holder(Some("not-a-pid")), None);
    assert_eq!(LockGuard::holder(Some("")), None);
    assert_eq!(LockGuard::holder(None), None);
    assert!(LockGuard::is_held(Some("42"), true));
    assert!(!LockGuard::is_held(Some("42"), false));
    assert!(!LockGuard::is_held(Some("not-a-pid"), true));
    assert!(!LockGuard::is_held(None, true));
    assert_eq!(
        LockGuard::holder(Some(&lock_contents(u32::MAX))),
        Some(u32::MAX)
    );
    assert_eq!(temp_extension(7), "lock.tmp.7");
}

#[test]
fn editor_to_use() {
    let visual = Some("vi".to_owned());
    let editor = Some("ed".to_owned());
    assert_eq!(
        edit::run(true, "/s", visual.clone(), editor.clone()),
        Edit::Launch("vi".to_owned())
    );
    assert_eq!(
        edit::run(true, "/s", None, editor),
        Edit::Launch("ed".to_owned())
    );
    assert_eq!(
        edit::run(true, "/s", None, None),
        Edit::NoEditor("no editor found — set $VISUAL or $EDITOR".to_owned())
    );
    assert_eq!(
        edit::run(false, "/s", visual, None),
        Edit::Missing("no session file at /s — run 'hypr-recall save' first".to_owned())
    );
    assert_eq!(launch_failed("vi"), "failed to launch editor 'vi'");
}

#[test]
fn deleting() {
    assert_eq!(
        delete::run(false, "/s"),
        Delete::Missing("no session file at /s".to_owned())
    );
    assert_eq!(
        delete::run(true, "/s"),
        Delete::Remove {
            done: "deleted /s".to_owned(),
            failed: "failed to delete /s".to_owned(),
        }
    );
}

#[test]
fn colors() {
    let shades = vec![(249, 115, 22), (168, 85, 247)];
    assert_eq!(
        colorize("ab", true, &shades),
        "\x1b[1m\x1b[38;2;249;115;22ma\x1b[38;2;168;85;247mb\x1b[0m"
    );
    assert_eq!(colorize("ab", false, &Vec::new()), "ab");
    assert_eq!(gradient("ab", false, &Vec::new()), "ab");
    assert_eq!(hr(false, &Vec::new()), "hypr-recall");
    assert_eq!(hr_err(false, &Vec::new()), "hypr-recall");
    let all = vec![(1, 2, 3); 11];
    assert!(hr(true, &all).starts_with("\x1b[1m\x1b[38;2;1;2;3mh"));
    assert_eq!(version("1.2", false), "1.2");
    assert_eq!(
        version("1.2", true),
        "\x1b[1m\x1b[38;2;168;85;247m1.2\x1b[0m"
    );
}
