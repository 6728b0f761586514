use std::collections::{HashMap, HashSet};

use hypr_recall::collections::{ClassMap, TextSet};
use hypr_recall::config::{AppConfig, Config};
use hypr_recall::desktop_entry::DesktopFile;
use hypr_recall::hyprland::HyprClient;
use hypr_recall::restore::live::{resolve_reply, snapshot};
use hypr_recall::restore::messages::missing_session;
use hypr_recall::restore::plan::session_restore_apps;
use hypr_recall::restore::protocol::{Command, Query, Reply, Turn};
use hypr_recall::restore::reorder::Reorder;
use hypr_recall::restore::run::Restore;
use hypr_recall::restore::stray::expected_workspaces;
use hypr_recall::restore::{
    columns_match, count_class, live_width_ratios, live_windows, plan_column_swaps,
    plan_width_assignments, plan_workspace, resolve_launch_command, run, run_dry,
    select_workspaces, stray_target, LiveWindow,
};
use hypr_recall::session::{Session, WindowEntry, WorkspaceEntry, SESSION_VERSION};

fn lw(address: &str, class: &str) -> LiveWindow {
    LiveWindow {
        address: address.into(),
        class: class.into(),
    }
}

fn classes(live: &[LiveWindow]) -> Vec<&str> {
    live.iter().map(|w| w.class.as_str()).collect()
}

#[test]
fn already_sorted_produces_no_ops() {
    let saved = ["a", "b", "c"];
    let mut live = vec![lw("0x1", "a"), lw("0x2", "b"), lw("0x3", "c")];
    let ops = plan_column_swaps(&saved, &mut live);
    assert!(ops.is_empty());
    assert_eq!(classes(&live), saved);
}

#[test]
fn swap_two_adjacent() {
    let saved = ["a", "b"];
    let mut live = vec![lw("0x1", "b"), lw("0x2", "a")];
    let ops = plan_column_swaps(&saved, &mut live);
    assert_eq!(ops, vec![("0x2".to_owned(), 1)]);
    assert_eq!(classes(&live), saved);
}

#[test]
fn bubble_from_end() {
    let saved = ["c", "a", "b"];
    let mut live = vec![lw("0x1", "a"), lw("0x2", "b"), lw("0x3", "c")];
    let ops = plan_column_swaps(&saved, &mut live);
    assert_eq!(ops, vec![("0x3".to_owned(), 2)]);
    assert_eq!(classes(&live), saved);
}

#[test]
fn full_reverse() {
    let saved = ["c", "b", "a"];
    let mut live = vec![lw("0x1", "a"), lw("0x2", "b"), lw("0x3", "c")];
    plan_column_swaps(&saved, &mut live);
    assert_eq!(classes(&live), saved);
}

#[test]
fn single_window_no_ops() {
    let saved = ["a"];
    let mut live = vec![lw("0x1", "a")];
    let ops = plan_column_swaps(&saved, &mut live);
    assert!(ops.is_empty());
}

#[test]
fn missing_class_skipped_no_panic() {
    let saved = ["x", "a", "b"];
    let mut live = vec![lw("0x1", "a"), lw("0x2", "b")];
    let ops = plan_column_swaps(&saved, &mut live);
    // "x" not in live — should produce no op for it and not panic
    assert!(ops.is_empty());
}

#[test]
fn duplicate_classes_already_sorted() {
    let saved = ["firefox", "ghostty", "ghostty"];
    let mut live = vec![
        lw("0x1", "firefox"),
        lw("0x2", "ghostty"),
        lw("0x3", "ghostty"),
    ];
    let ops = plan_column_swaps(&saved, &mut live);
    assert!(ops.is_empty());
    assert_eq!(classes(&live), saved);
}

#[test]
fn duplicate_classes_need_reorder() {
    let saved = ["ghostty", "firefox", "ghostty"];
    let mut live = vec![
        lw("0x1", "firefox"),
        lw("0x2", "ghostty"),
        lw("0x3", "ghostty"),
    ];
    plan_column_swaps(&saved, &mut live);
    assert_eq!(classes(&live), saved);
}

#[test]
fn last_common_column_is_fetched_past_other_windows() {
    let saved = ["a", "b"];
    let mut live = vec![lw("0x1", "a"), lw("0x2", "c"), lw("0x3", "b")];
    assert_eq!(
        plan_column_swaps(&saved, &mut live),
        vec![("0x3".to_owned(), 1)]
    );
    assert_eq!(classes(&live), vec!["a", "b", "c"]);
    assert!(columns_match(&saved, &live));
}

#[test]
fn no_columns_need_no_moves() {
    let mut live = vec![lw("0x1", "a")];
    assert!(plan_column_swaps(&[], &mut live).is_empty());
    assert!(plan_column_swaps(&["a"], &mut Vec::new()).is_empty());
}

#[test]
fn widths_assigned_in_order_when_all_present() {
    let saved = [("a", 0.5), ("b", 0.3), ("c", 0.2)];
    let live = vec![lw("0x1", "a"), lw("0x2", "b"), lw("0x3", "c")];
    let ops = plan_width_assignments(&saved, &live);
    assert_eq!(
        ops,
        vec![
            ("0x1".to_owned(), 0.5),
            ("0x2".to_owned(), 0.3),
            ("0x3".to_owned(), 0.2),
        ]
    );
}

#[test]
fn missing_middle_window_keeps_remaining_widths_aligned() {
    // Saved [a, b, c] but b failed to launch — c must still get c's width,
    // not b's.
    let saved = [("a", 0.5), ("b", 0.3), ("c", 0.2)];
    let live = vec![lw("0x1", "a"), lw("0x3", "c")];
    let ops = plan_width_assignments(&saved, &live);
    assert_eq!(ops, vec![("0x1".to_owned(), 0.5), ("0x3".to_owned(), 0.2)]);
}

#[test]
fn duplicate_classes_consumed_left_to_right() {
    let saved = [("ghostty", 0.6), ("ghostty", 0.4)];
    let live = vec![lw("0x1", "ghostty"), lw("0x2", "ghostty")];
    let ops = plan_width_assignments(&saved, &live);
    assert_eq!(ops, vec![("0x1".to_owned(), 0.6), ("0x2".to_owned(), 0.4)]);
}

#[test]
fn extra_live_window_is_left_untouched() {
    let saved = [("a", 0.5)];
    let live = vec![lw("0x1", "a"), lw("0x2", "b")];
    let ops = plan_width_assignments(&saved, &live);
    assert_eq!(ops, vec![("0x1".to_owned(), 0.5)]);
}

#[test]
fn no_window_gets_two_widths() {
    let saved = [("a", 0.5), ("a", 0.3), ("a", 0.2)];
    let live = vec![lw("0x1", "a"), lw("0x2", "a")];
    let ops = plan_width_assignments(&saved, &live);
    assert_eq!(ops, vec![("0x1".to_owned(), 0.5), ("0x2".to_owned(), 0.3)]);
}

fn win(class: &str, exe: &str) -> WindowEntry<f64> {
    WindowEntry {
        class: class.into(),
        exe: exe.into(),
        launch_args: None,
        col_width: 0.5,
    }
}

fn ws(windows: Vec<WindowEntry<f64>>) -> WorkspaceEntry<f64> {
    WorkspaceEntry {
        workspace: 1,
        windows,
    }
}

fn counts(items: &[(&str, usize)]) -> ClassMap<usize> {
    let mut map = ClassMap::new();
    for (class, n) in items {
        map.insert((*class).to_owned(), *n);
    }
    map
}

#[test]
fn plan_dedups_by_class_and_counts_saved() {
    let entry = ws(vec![
        win("ghostty", "/usr/bin/ghostty"),
        win("ghostty", "/usr/bin/ghostty"),
        win("firefox", "/usr/lib/firefox"),
    ]);
    let plans = plan_workspace(&entry, &mut counts(&[]), &Config::default(), &[]);

    assert_eq!(plans.len(), 2, "duplicate class collapses to one plan");
    assert_eq!(plans[0].class, "ghostty", "column order preserved");
    assert_eq!(plans[0].saved_count, 2);
    assert_eq!(plans[0].needed, 2);
    assert_eq!(plans[1].class, "firefox");
    assert_eq!(plans[1].saved_count, 1);
}

#[test]
fn plan_subtracts_pre_existing_and_saturates() {
    let entry = ws(vec![
        win("ghostty", "/usr/bin/ghostty"),
        win("ghostty", "/usr/bin/ghostty"),
        win("firefox", "/usr/lib/firefox"),
    ]);
    let mut pre = counts(&[("ghostty", 1), ("firefox", 3)]);
    let plans = plan_workspace(&entry, &mut pre, &Config::default(), &[]);

    assert_eq!(plans[0].pre, 1);
    assert_eq!(plans[0].needed, 1, "2 saved - 1 pre");
    assert_eq!(plans[1].needed, 0, "1 saved - 3 pre saturates to 0");
    assert!(pre.get("ghostty").is_none());
    assert_eq!(pre.get("firefox"), Some(&2));
}

#[test]
fn plan_flags_builtin_session_restore_apps() {
    let entry = ws(vec![
        win("firefox", "/usr/lib/firefox"),
        win("ghostty", "/usr/bin/ghostty"),
    ]);
    let plans = plan_workspace(&entry, &mut counts(&[]), &Config::default(), &[]);

    assert!(plans[0].session_restore, "firefox is a built-in");
    assert!(!plans[1].session_restore, "ghostty is not");
    assert_eq!(session_restore_apps().len(), 10);
}

#[test]
fn plan_resolves_config_launch_args_over_session() {
    let mut cfg = Config::default();
    cfg.apps.insert(
        "firefox".to_owned(),
        AppConfig {
            launch_args: vec!["--profile".to_owned(), "/work".to_owned()],
            session_restore: false,
        },
    );
    let mut window = win("firefox", "/usr/lib/firefox");
    window.launch_args = Some(vec!["--ignored".to_owned()]);
    let plans = plan_workspace(&ws(vec![window]), &mut counts(&[]), &cfg, &[]);

    assert_eq!(plans[0].launch_args, vec!["--profile", "/work"]);
}

#[test]
fn plan_trims_deleted_suffix_from_exe() {
    let entry = ws(vec![win("firefox", "/usr/lib/firefox (deleted)")]);
    let plans = plan_workspace(&entry, &mut counts(&[]), &Config::default(), &[]);
    assert_eq!(plans[0].exe, "/usr/lib/firefox");
}

#[test]
fn resolve_launch_command_uses_exe_when_it_exists() {
    let cmd = resolve_launch_command("whatever-class", "/usr/bin/thing", true, &Vec::new());
    assert_eq!(cmd, Some(vec!["/usr/bin/thing".to_owned()]));
}

#[test]
fn resolve_launch_command_returns_none_when_exe_and_desktop_entry_both_missing() {
    let cmd = resolve_launch_command(
        "definitely-not-a-real-class-xyz",
        "/definitely/not/a/real/path/xyz",
        false,
        &Vec::new(),
    );
    assert_eq!(cmd, None);
}

#[test]
fn resolve_launch_command_falls_back_to_the_desktop_entry() {
    let entries = vec![DesktopFile {
        file_name: Some("straße.desktop".to_owned()),
        text: Some("[Desktop Entry]\nExec=/opt/new/app --x\n".to_owned()),
    }];
    let cmd = resolve_launch_command("STRAßE", "/opt/old/app", false, &entries);
    assert_eq!(cmd.unwrap(), vec!["/opt/new/app", "--x"]);
}

fn session_with(ws_ids: &[i32]) -> Session<f64> {
    Session {
        version: SESSION_VERSION,
        active_workspace: ws_ids.first().copied().unwrap_or(1),
        workspaces: ws_ids
            .iter()
            .map(|&id| WorkspaceEntry {
                workspace: id,
                windows: vec![win("firefox", "/usr/lib/firefox")],
            })
            .collect(),
    }
}

#[test]
fn select_none_returns_all_workspaces() {
    let session = session_with(&[1, 2, 3]);
    let selected = select_workspaces(&session, None).unwrap();
    assert_eq!(selected.len(), 3);
}

#[test]
fn select_existing_workspace_returns_just_it() {
    let session = session_with(&[1, 2, 3]);
    let selected = select_workspaces(&session, Some(2)).unwrap();
    assert_eq!(selected.len(), 1);
    assert_eq!(selected[0].workspace, 2);
}

#[test]
fn select_missing_workspace_returns_none() {
    let session = session_with(&[1, 2, 3]);
    assert!(select_workspaces(&session, Some(9)).is_none());
}

#[test]
fn plan_consumes_pre_existing_across_workspaces() {
    // Same class on two workspaces with one instance already open. The
    // pre-existing window may only be credited once in total, otherwise
    // each workspace subtracts it and we launch too few windows.
    let mut pre = counts(&[("ghostty", 1)]);
    let ws1 = ws(vec![
        win("ghostty", "/usr/bin/ghostty"),
        win("ghostty", "/usr/bin/ghostty"),
    ]);
    let ws2 = ws(vec![
        win("ghostty", "/usr/bin/ghostty"),
        win("ghostty", "/usr/bin/ghostty"),
    ]);

    let plan1 = plan_workspace(&ws1, &mut pre, &Config::default(), &[]);
    let plan2 = plan_workspace(&ws2, &mut pre, &Config::default(), &[]);

    assert_eq!(plan1[0].needed, 1);
    assert_eq!(plan2[0].needed, 2);
    assert_eq!(plan1[0].needed + plan2[0].needed, 3, "4 saved - 1 pre");
}

#[test]
fn plan_carries_surplus_pre_existing_forward() {
    // Three instances already open, but the first workspace only needs two:
    // the surplus must carry to the next workspace, not evaporate.
    let mut pre = counts(&[("ghostty", 3)]);
    let ws1 = ws(vec![
        win("ghostty", "/usr/bin/ghostty"),
        win("ghostty", "/usr/bin/ghostty"),
    ]);
    let ws2 = ws(vec![
        win("ghostty", "/usr/bin/ghostty"),
        win("ghostty", "/usr/bin/ghostty"),
    ]);

    let plan1 = plan_workspace(&ws1, &mut pre, &Config::default(), &[]);
    let plan2 = plan_workspace(&ws2, &mut pre, &Config::default(), &[]);

    assert_eq!(plan1[0].needed, 0);
    assert_eq!(plan2[0].needed, 1);
}

fn client(address: &str, class: &str, workspace: i32, floating: bool) -> HyprClient {
    HyprClient {
        address: address.into(),
        initial_class: class.into(),
        x: 0,
        width: 100,
        workspace_id: workspace,
        pid: 1,
        monitor: 0,
        floating,
        mapped: true,
    }
}

fn homes(class: &str, ids: &[i32]) -> ClassMap<Vec<i32>> {
    let mut map = ClassMap::new();
    map.insert(class.to_owned(), ids.to_vec());
    map
}

#[test]
fn stray_target_moves_new_window_on_wrong_workspace() {
    let class_to_ws = homes("ghostty", &[1]);
    let c = client("0xA", "ghostty", 2, false);
    assert_eq!(stray_target(&c, &class_to_ws, &TextSet::new()), Some(1));
}

#[test]
fn stray_target_leaves_pre_existing_window_alone() {
    // A window that was already open before the restore must never be
    // relocated, even if its class matches and it's on another workspace.
    let class_to_ws = homes("ghostty", &[1]);
    let c = client("0xA", "ghostty", 2, false);
    let mut pre_existing = TextSet::new();
    pre_existing.insert("0xA".to_owned());
    assert_eq!(stray_target(&c, &class_to_ws, &pre_existing), None);
}

#[test]
fn stray_target_leaves_floating_window_alone() {
    let class_to_ws = homes("ghostty", &[1]);
    let c = client("0xA", "ghostty", 2, true);
    assert_eq!(stray_target(&c, &class_to_ws, &TextSet::new()), None);
}

#[test]
fn stray_target_leaves_special_workspace_window_alone() {
    let class_to_ws = homes("ghostty", &[1]);
    let c = client("0xA", "ghostty", -99, false);
    assert_eq!(stray_target(&c, &class_to_ws, &TextSet::new()), None);
}

#[test]
fn stray_target_ignores_unknown_class_and_correct_workspace() {
    let class_to_ws = homes("ghostty", &[1, 3]);
    let unknown = client("0xA", "firefox", 2, false);
    assert_eq!(stray_target(&unknown, &class_to_ws, &TextSet::new()), None);
    let already_valid = client("0xB", "ghostty", 3, false);
    assert_eq!(
        stray_target(&already_valid, &class_to_ws, &TextSet::new()),
        None
    );
}

#[test]
fn stray_target_uses_first_valid_workspace_for_multi_workspace_class() {
    let class_to_ws = homes("ghostty", &[1, 3]);
    let c = client("0xA", "ghostty", 2, false);
    assert_eq!(stray_target(&c, &class_to_ws, &TextSet::new()), Some(1));
}

#[test]
fn expected_workspaces_are_in_session_order() {
    let a = ws_entry(3, &["app", "app", "other"]);
    let b = ws_entry(1, &["app"]);
    let map = expected_workspaces(&vec![&a, &b, &a]);
    assert_eq!(map.get("app"), Some(&vec![3, 1]));
    assert_eq!(map.get("other"), Some(&vec![3]));
    assert!(map.get("none").is_none());
}

#[test]
fn columns_match_checks_prefix_only() {
    let saved = ["a", "b", "c"];
    // Fewer live windows than saved: the missing tail is ignored.
    assert!(columns_match(&saved, &[lw("0x1", "a"), lw("0x2", "b")]));
    // Extra live windows after the saved prefix are left alone.
    assert!(columns_match(
        &saved,
        &[
            lw("0x1", "a"),
            lw("0x2", "b"),
            lw("0x3", "c"),
            lw("0x4", "z"),
        ]
    ));
    assert!(!columns_match(&saved, &[lw("0x1", "b"), lw("0x2", "a")]));
}

fn client_at(address: &str, class: &str, workspace: i32, x: i32) -> HyprClient {
    let mut c = client(address, class, workspace, false);
    c.x = x;
    c
}

fn ws_entry(id: i32, classes: &[&str]) -> WorkspaceEntry<f64> {
    WorkspaceEntry {
        workspace: id,
        windows: classes
            .iter()
            .map(|c| win(c, &format!("/usr/bin/{c}")))
            .collect(),
    }
}

/// An in-memory stand-in for Hyprland, so that a restore can run without a
/// compositor and without starting apps. A swap really reorders its clients.
struct Mock {
    clients: Vec<HyprClient>,
    focused: Option<String>,
    fail_focus: HashSet<i32>,
    focused_workspaces: Vec<i32>,
    swaps: usize,
    /// Swaps to swallow, to prove that reordering is verified and retried.
    drop_swaps: usize,
    /// How often the open windows were asked for, used to introduce a window
    /// after the first time.
    calls: usize,
    /// Windows to add when they are asked for the given time.
    strays: Vec<(usize, HyprClient)>,
    /// Programs that cannot be started.
    broken: HashSet<String>,
    /// Programs that start but open no window.
    silent: HashSet<String>,
    /// What was started.
    spawned: Vec<Vec<String>>,
    /// The workspace that new windows open on.
    current: i32,
    /// A new window that is not waited for yet.
    pending: Vec<String>,
    told: Vec<String>,
    warned: Vec<String>,
    debugged: Vec<String>,
    overlay: Vec<String>,
    fail_lock: bool,
    fail_clients_from: Option<usize>,
    resized: Vec<(String, f64)>,
    /// Resizes to swallow.
    drop_resizes: usize,
}

impl Mock {
    fn new(clients: Vec<HyprClient>) -> Self {
        Self {
            clients,
            focused: None,
            fail_focus: HashSet::new(),
            focused_workspaces: Vec::new(),
            swaps: 0,
            drop_swaps: 0,
            calls: 0,
            strays: Vec::new(),
            broken: HashSet::new(),
            silent: HashSet::new(),
            spawned: Vec::new(),
            current: 1,
            pending: Vec::new(),
            told: Vec::new(),
            warned: Vec::new(),
            debugged: Vec::new(),
            overlay: Vec::new(),
            fail_lock: false,
            fail_clients_from: None,
            resized: Vec::new(),
            drop_resizes: 0,
        }
    }

    fn order(&self, ws_id: i32) -> Vec<String> {
        let mut clients: Vec<_> = self
            .clients
            .iter()
            .filter(|c| c.workspace_id == ws_id && !c.floating && c.mapped)
            .map(|c| (c.x, c.initial_class.clone()))
            .collect();
        clients.sort_by_key(|(x, _)| *x);
        clients.into_iter().map(|(_, class)| class).collect()
    }

    fn open(&mut self, class: &str) {
        let x = self
            .clients
            .iter()
            .filter(|c| c.workspace_id == self.current)
            .map(|c| c.x)
            .max()
            .unwrap_or(0)
            + 10;
        let address = format!("0xnew{}", self.clients.len());
        self.clients
            .push(client_at(&address, class, self.current, x));
        self.pending.push(class.to_owned());
    }

    fn swap_left(&mut self) {
        if self.drop_swaps > 0 {
            self.drop_swaps -= 1;
            return;
        }
        let Some(idx) = self
            .focused
            .as_ref()
            .and_then(|a| self.clients.iter().position(|c| &c.address == a))
        else {
            return;
        };
        let ws = self.clients[idx].workspace_id;
        let x = self.clients[idx].x;
        let left = self
            .clients
            .iter()
            .enumerate()
            .filter(|(_, c)| c.workspace_id == ws && !c.floating && c.mapped && c.x < x)
            .max_by_key(|(_, c)| c.x)
            .map(|(i, _)| i);
        if let Some(li) = left {
            let lx = self.clients[li].x;
            self.clients[idx].x = lx;
            self.clients[li].x = x;
            self.swaps += 1;
        }
    }

    fn perform(&mut self, command: &Command<f64>) -> Result<(), String> {
        match command {
            Command::Progress(text) => self.told.push(text.clone()),
            Command::Warn(text) | Command::Note(text) => self.warned.push(text.clone()),
            Command::Debug(text) => self.debugged.push(text.clone()),
            Command::WidthOff(check) => self.debugged.push(format!(
                "off {} {} {}/{}",
                check.address, check.wanted, check.width, check.monitor_width
            )),
            Command::Sleep(_) | Command::SleepSecs(_) => {}
            Command::FocusWorkspace(id) => {
                self.focused_workspaces.push(*id);
                if self.fail_focus.contains(id) {
                    return Err(format!("mock: focusing workspace {id} failed"));
                }
                self.current = *id;
            }
            Command::FocusWindow(address) => self.focused = Some(address.clone()),
            Command::SwapLeft => self.swap_left(),
            Command::Resize(ratio) => {
                let focused = self.focused.clone().unwrap();
                self.resized.push((focused.clone(), *ratio));
                if self.drop_resizes > 0 {
                    self.drop_resizes -= 1;
                } else if let Some(c) = self.clients.iter_mut().find(|c| c.address == focused) {
                    c.width = (ratio * 1920.0).round() as i32;
                }
            }
            Command::MoveTo(address, workspace_id) => {
                let max_x = self
                    .clients
                    .iter()
                    .filter(|c| c.workspace_id == *workspace_id)
                    .map(|c| c.x)
                    .max()
                    .unwrap_or(0);
                if let Some(c) = self.clients.iter_mut().find(|c| &c.address == address) {
                    c.workspace_id = *workspace_id;
                    c.x = max_x + 10;
                }
            }
            Command::SpawnOverlay => self.overlay.push("spawn".to_owned()),
            Command::OverlayProgress(line) => self.overlay.push(line.clone()),
            Command::KillOverlay => self.overlay.push("kill".to_owned()),
        }
        Ok(())
    }

    fn answer(&mut self, query: Query<f64>) -> Result<Reply, Result<(), String>> {
        Ok(match query {
            Query::Nothing | Query::Subscribe => Reply::Done,
            Query::AcquireLock if self.fail_lock => Reply::Failed("mock: locked".to_owned()),
            Query::AcquireLock => Reply::Done,
            Query::Clients => {
                self.calls += 1;
                if self.fail_clients_from.is_some_and(|n| self.calls >= n) {
                    return Ok(Reply::Failed("mock: no clients".to_owned()));
                }
                let calls = self.calls;
                let due: Vec<HyprClient> = self
                    .strays
                    .iter()
                    .filter(|(call, _)| *call == calls)
                    .map(|(_, c)| c.clone())
                    .collect();
                self.strays.retain(|(call, _)| *call != calls);
                self.clients.extend(due);
                Reply::Clients(self.clients.clone())
            }
            Query::Columns(_) => Reply::Clients(self.clients.clone()),
            Query::Widths(_) => Reply::Widths(self.clients.clone(), HashMap::from([(0, 1920)])),
            Query::Compare(checks) => Reply::Settled(
                checks
                    .iter()
                    .map(|c| {
                        (f64::from(c.width) / f64::from(c.monitor_width) - c.wanted).abs() <= 0.03
                    })
                    .collect(),
            ),
            Query::Resolve { class: _, exe } => {
                let exists = !exe.starts_with("/gone");
                Reply::Command(exists.then_some(vec![exe]))
            }
            Query::Spawn(argv) => {
                self.spawned.push(argv.clone());
                let program = argv[0].clone();
                if self.broken.contains(&program) {
                    return Ok(Reply::Failed("mock: not found".to_owned()));
                }
                if !self.silent.contains(&program) {
                    let class = program.rsplit('/').next().unwrap().to_owned();
                    self.open(&class);
                }
                Reply::Done
            }
            Query::Wait { class, count } => {
                let before = self.pending.len();
                self.pending.retain(|c| c != &class);
                Reply::Count((before - self.pending.len()).min(count))
            }
            Query::Finish(result) => return Err(result),
        })
    }

    fn take(&mut self, turn: Turn<f64>) -> Result<Reply, Result<(), String>> {
        for command in &turn.commands {
            if let Err(e) = self.perform(command) {
                return Ok(Reply::Failed(e));
            }
        }
        self.answer(turn.query)
    }

    fn restore(
        &mut self,
        session: &Session<f64>,
        cfg: &Config,
        only: Option<i32>,
    ) -> Result<(), String> {
        let (mut restore, mut turn): (Restore<f64>, Turn<f64>) =
            run(session, "test", &[], cfg, only)?;
        loop {
            match self.take(turn) {
                Ok(reply) => turn = restore.follow(reply),
                Err(result) => return result,
            }
        }
    }

    fn reorder(&mut self, ws_id: i32, entry: &WorkspaceEntry<f64>) -> Result<(), String> {
        let (mut reorder, mut turn) = Reorder::start(ws_id);
        loop {
            match self.take(turn) {
                Ok(reply) => turn = reorder.reorder_columns(ws_id, &entry.windows, reply),
                Err(result) => return result,
            }
        }
    }
}

fn quick() -> Config {
    Config {
        overlay: false,
        settle_delay_secs: 0,
        ..Config::default()
    }
}

fn session_of(workspaces: Vec<WorkspaceEntry<f64>>) -> Session<f64> {
    Session {
        version: SESSION_VERSION,
        active_workspace: 1,
        workspaces,
    }
}

#[test]
fn count_class_counts_by_initial_class() {
    let clients = vec![
        client_at("0x1", "app", 1, 0),
        client_at("0x2", "app", 2, 0),
        client_at("0x3", "other", 1, 0),
    ];
    assert_eq!(count_class(&clients, "app"), 2);
    assert_eq!(count_class(&clients, "other"), 1);
    assert_eq!(count_class(&clients, "missing"), 0);
}

#[test]
fn reorder_retries_when_a_swap_does_not_take() {
    let entry = ws_entry(1, &["a", "b"]);
    let mut mock = Mock::new(vec![
        client_at("0xB", "b", 1, 0),
        client_at("0xA", "a", 1, 10),
    ]);
    // First swap is swallowed: a fire-and-forget reorder would give up with
    // the wrong order; the verify-and-retry loop must recover.
    mock.drop_swaps = 1;

    mock.reorder(1, &entry).unwrap();

    assert_eq!(mock.order(1), vec!["a", "b"]);
    assert!(mock.swaps >= 1, "a swap must eventually take effect");
}

#[test]
fn reorder_gives_up_after_three_attempts() {
    let entry = ws_entry(1, &["a", "b"]);
    let mut mock = Mock::new(vec![
        client_at("0xB", "b", 1, 0),
        client_at("0xA", "a", 1, 10),
    ]);
    mock.drop_swaps = 3;
    mock.reorder(1, &entry).unwrap();
    assert_eq!(mock.order(1), vec!["b", "a"]);
    assert_eq!(
        mock.warned,
        vec!["could not reorder workspace 1 into the saved column order after 3 attempts"]
    );
    assert_eq!(
        mock.resized.len(),
        2,
        "the widths are applied all the same"
    );
}

#[test]
fn widths_that_do_not_settle_are_applied_again() {
    let mut entry = ws_entry(1, &["a", "b"]);
    entry.windows[0].col_width = 0.25;
    entry.windows[1].col_width = 0.75;
    let mut mock = Mock::new(vec![
        client_at("0xA", "a", 1, 0),
        client_at("0xB", "b", 1, 10),
    ]);
    mock.drop_resizes = 1;
    mock.reorder(1, &entry).unwrap();
    assert_eq!(
        mock.resized,
        vec![
            ("0xA".to_owned(), 0.25),
            ("0xB".to_owned(), 0.75),
            ("0xA".to_owned(), 0.25),
        ]
    );
    assert_eq!(mock.swaps, 0, "columns in order are not touched");
    assert_eq!(mock.debugged, vec!["off 0xA 0.25 100/1920"]);
}

#[test]
fn run_continues_after_a_workspace_fails() {
    let session = Session {
        version: SESSION_VERSION,
        active_workspace: 1,
        workspaces: vec![
            ws_entry(1, &["a"]),
            ws_entry(2, &["b"]),
            ws_entry(3, &["c"]),
        ],
    };
    let mut mock = Mock::new(vec![
        client_at("0xA", "a", 1, 0),
        client_at("0xB", "b", 2, 0),
        client_at("0xC", "c", 3, 0),
    ]);
    mock.fail_focus.insert(2);

    mock.restore(&session, &quick(), None).unwrap();

    let focused = mock.focused_workspaces.clone();
    assert!(focused.contains(&2), "workspace 2 was attempted");
    assert!(
        focused.contains(&3),
        "workspace 3 still restored despite workspace 2 failing"
    );
    assert_eq!(focused, vec![1, 2, 3, 1]);
    assert_eq!(
        mock.warned,
        vec![
            "workspace 2 failed: mock: focusing workspace 2 failed — continuing with remaining \
             workspaces"
        ]
    );
}

#[test]
fn stray_window_swept_into_a_workspace_is_reordered() {
    // Saved ws1 wants [a, b]. "a" isn't on ws1 at first — it appears late on
    // ws2 and is swept over. Without re-ordering after the sweep, ws1 would
    // settle as [b, a].
    let session = Session {
        version: SESSION_VERSION,
        active_workspace: 1,
        workspaces: vec![ws_entry(1, &["a", "b"])],
    };
    let mut mock = Mock::new(vec![
        // A pre-existing "a" elsewhere: it counts toward the pre-existing
        // total (so nothing is launched) but must not itself be swept.
        client_at("0xPRE", "a", 3, 0),
        client_at("0xB", "b", 1, 0),
    ]);
    // The late "a" shows up on ws2 when the sweep asks for the windows, which is
    // the second time that they are asked for.
    mock.strays.push((2, client_at("0xLATE", "a", 2, 0)));

    mock.restore(&session, &quick(), None).unwrap();

    assert_eq!(mock.order(1), vec!["a", "b"]);
    assert_eq!(
        mock.order(3),
        vec!["a"],
        "the pre-existing window must be left where it was"
    );
    assert!(mock
        .told
        .contains(&"moved 1 stray window(s) to correct workspace(s)".to_owned()));
}

#[test]
fn missing_windows_are_launched_one_at_a_time() {
    let session = session_of(vec![ws_entry(1, &["b", "a", "b"])]);
    let mut mock = Mock::new(vec![client_at("0xB", "b", 1, 0)]);
    mock.restore(&session, &quick(), None).unwrap();
    assert_eq!(mock.spawned, vec![vec!["/usr/bin/b"], vec!["/usr/bin/a"]]);
    assert_eq!(mock.order(1), vec!["b", "a", "b"]);
    assert_eq!(
        mock.told,
        vec![
            "restoring 'test'",
            "restoring workspace 1 (3 windows)",
            "restore complete",
        ]
    );
    assert!(mock.warned.is_empty());
}

#[test]
fn apps_that_restore_themselves_are_started_once() {
    let session = session_of(vec![ws_entry(1, &["firefox", "firefox", "firefox"])]);
    let mut mock = Mock::new(Vec::new());
    mock.restore(&session, &quick(), None).unwrap();
    assert_eq!(mock.spawned, vec![vec!["/usr/bin/firefox"]]);
}

#[test]
fn what_is_open_is_not_launched() {
    let session = session_of(vec![ws_entry(1, &["a"]), ws_entry(2, &["a"])]);
    let mut mock = Mock::new(vec![
        client_at("0x1", "a", 1, 0),
        client_at("0x2", "a", 2, 0),
    ]);
    mock.restore(&session, &quick(), None).unwrap();
    assert!(mock.spawned.is_empty());
}

#[test]
fn launch_arguments_follow_the_command() {
    let mut session = session_of(vec![ws_entry(1, &["a"])]);
    session.workspaces[0].windows[0].launch_args = Some(vec!["--x".to_owned()]);
    let mut mock = Mock::new(Vec::new());
    mock.restore(&session, &quick(), None).unwrap();
    assert_eq!(mock.spawned, vec![vec!["/usr/bin/a", "--x"]]);
}

#[test]
fn programs_that_do_not_start_are_told_and_passed_over() {
    let mut session = session_of(vec![ws_entry(1, &["a", "a", "b", "zed", "c"])]);
    session.workspaces[0].windows[4].exe = "/gone/c".to_owned();
    let mut mock = Mock::new(Vec::new());
    mock.broken.insert("/usr/bin/a".to_owned());
    mock.broken.insert("/usr/bin/zed".to_owned());
    mock.silent.insert("/usr/bin/b".to_owned());
    mock.restore(&session, &quick(), None).unwrap();
    assert_eq!(
        mock.warned,
        vec![
            "could not restore \"a\" (launch 1/2) — failed to spawn /usr/bin/a: mock: not found, skipping",
            "could not restore \"a\" (launch 2/2) — failed to spawn /usr/bin/a: mock: not found, skipping",
            "  TIMEOUT waiting for b (launch 1/1)",
            "could not restore \"zed\" — failed to spawn /usr/bin/zed: mock: not found, skipping",
            "could not restore \"c\" — binary \"/gone/c\" not found and no matching .desktop entry, skipping",
        ]
    );
    assert_eq!(mock.told.last().unwrap(), "restore complete");
}

#[test]
fn windows_that_no_event_told_of_are_found_in_the_list() {
    let session = session_of(vec![ws_entry(1, &["a"])]);
    let mut mock = Mock::new(Vec::new());
    mock.silent.insert("/usr/bin/a".to_owned());
    // The snapshot, the count before the launches, the count before the launch,
    // and then the look at the list.
    mock.strays.push((4, client_at("0xA", "a", 1, 0)));
    mock.restore(&session, &quick(), None).unwrap();
    assert!(mock.warned.is_empty());
}

#[test]
fn one_workspace_restored_alone_keeps_the_focus() {
    let session = session_of(vec![ws_entry(1, &["a"]), ws_entry(5, &["b"])]);
    let mut mock = Mock::new(Vec::new());
    // A window of workspace 1 is elsewhere, and no concern of this restore.
    mock.strays.push((3, client_at("0xA", "a", 7, 0)));
    mock.restore(&session, &quick(), Some(5)).unwrap();
    assert_eq!(mock.focused_workspaces, vec![5, 5]);
    assert_eq!(mock.order(7), vec!["a"]);
    assert_eq!(mock.told[0], "restoring 'test' (workspace 5 only)");
}

#[test]
fn unknown_workspace_is_told() {
    let session = session_of(vec![ws_entry(1, &["a"])]);
    let mut mock = Mock::new(Vec::new());
    assert_eq!(
        mock.restore(&session, &quick(), Some(9)).unwrap_err(),
        "workspace 9 not found in session 'test'"
    );
    assert_eq!(
        missing_session("/x/session.json"),
        "no session file at /x/session.json — run 'hypr-recall save' first"
    );
}

#[test]
fn failures_while_getting_ready_end_the_restore() {
    let session = session_of(vec![ws_entry(1, &["a"])]);
    let mut locked = Mock::new(Vec::new());
    locked.fail_lock = true;
    assert_eq!(
        locked.restore(&session, &quick(), None).unwrap_err(),
        "mock: locked"
    );
    let mut blind = Mock::new(Vec::new());
    blind.fail_clients_from = Some(1);
    assert_eq!(
        blind.restore(&session, &quick(), None).unwrap_err(),
        "mock: no clients"
    );
}

#[test]
fn later_failures_are_told_and_the_restore_ends_well() {
    let session = session_of(vec![ws_entry(2, &["a"])]);
    let mut mock = Mock::new(vec![client_at("0xA", "a", 2, 0)]);
    mock.fail_clients_from = Some(2);
    mock.fail_focus.insert(1);
    mock.restore(&session, &quick(), None).unwrap();
    assert_eq!(
        mock.warned,
        vec![
            "stray-window sweep failed: mock: no clients",
            "could not refocus workspace: mock: focusing workspace 1 failed",
        ]
    );
    assert_eq!(mock.told.last().unwrap(), "restore complete");
}

#[test]
fn overlay_follows_the_workspaces() {
    let session = session_of(vec![ws_entry(1, &["a"]), ws_entry(2, &["b"])]);
    let mut mock = Mock::new(vec![
        client_at("0xA", "a", 1, 0),
        client_at("0xB", "b", 2, 0),
    ]);
    let cfg = Config {
        overlay: true,
        settle_delay_secs: 0,
        ..Config::default()
    };
    mock.restore(&session, &cfg, None).unwrap();
    assert_eq!(
        mock.overlay,
        vec![
            "spawn",
            "restoring workspace 1 / 2\n",
            "restoring workspace 2 / 2\n",
            "kill",
        ]
    );
}

#[test]
fn answers_to_other_queries_are_failures() {
    let session = session_of(vec![ws_entry(1, &["a"])]);
    let cfg = quick();
    let (mut restore, _) = run(&session, "test", &[], &cfg, None).unwrap();
    let turn = restore.follow(Reply::Count(3));
    match turn.query {
        Query::Finish(Err(e)) => assert_eq!(e, "unexpected answer"),
        _ => panic!("the restore is over"),
    }
    let turn = restore.follow(Reply::Done);
    assert!(matches!(turn.query, Query::Finish(Ok(()))));
}

#[test]
fn snapshot_counts_classes_and_keeps_addresses() {
    let s = snapshot(&vec![
        client_at("0x1", "a", 1, 0),
        client_at("0x2", "a", 2, 0),
        client_at("0x3", "b", 1, 0),
    ]);
    assert_eq!(s.counts.get("a"), Some(&2));
    assert_eq!(s.counts.get("b"), Some(&1));
    assert!(s.counts.get("c").is_none());
    assert!(s.addresses.contains("0x2"));
    assert!(!s.addresses.contains("0x4"));
    assert_eq!(s.addresses.len(), 3);
}

#[test]
fn live_columns_and_their_widths() {
    let mut far = client_at("0x2", "b", 1, 20);
    far.monitor = 7;
    far.width = 480;
    let mut flat = client_at("0x3", "c", 1, 30);
    flat.monitor = 1;
    let clients = vec![
        far,
        client_at("0x1", "a", 1, 10),
        flat,
        client("0xF", "f", 1, true),
    ];
    let live = live_windows(clients.clone(), 1);
    assert_eq!(classes(&live), vec!["a", "b", "c"]);
    let monitors = HashMap::from([(0, 1000), (1, 0)]);
    let ratios = live_width_ratios(clients, &monitors, 1);
    let shown: Vec<(&str, i32, i32)> = ratios
        .iter()
        .map(|r| (r.address.as_str(), r.width, r.monitor_width))
        .collect();
    assert_eq!(
        shown,
        vec![("0x1", 100, 1000), ("0x2", 480, 1920), ("0x3", 100, 1920)]
    );
}

#[test]
fn dry_run_shows_what_would_be_done() {
    let mut session = session_of(vec![
        ws_entry(1, &["a", "a", "zed"]),
        ws_entry(2, &["a", "firefox", "b", "gone"]),
    ]);
    session.workspaces[1].windows[2].launch_args = Some(vec!["-x".to_owned(), "-y".to_owned()]);
    let clients = vec![client_at("0x1", "a", 1, 0), client_at("0x2", "zed", 1, 0)];
    let cfg = quick();
    let dry = run_dry(&session, &[], &cfg, None, &clients).unwrap();
    let commands: Vec<Vec<Option<Vec<String>>>> = vec![
        vec![Some(vec!["/usr/bin/a".to_owned()]), None],
        vec![
            Some(vec!["/opt/a".to_owned(), "--new".to_owned()]),
            Some(vec!["/opt/firefox".to_owned()]),
            Some(vec!["/usr/bin/b".to_owned()]),
        ],
    ];
    let pad = |class: &str| format!("    {class:<40} → ");
    assert_eq!(
        dry.report(&commands),
        vec![
            "  workspace 1 (3 windows)  ← active".to_owned(),
            format!("{}launch 1", pad("a")),
            format!("{}skip (1 already open)", pad("zed")),
            String::new(),
            "  workspace 2 (4 windows)".to_owned(),
            format!("{}launch 1  [via /opt/a — recorded exe missing]", pad("a")),
            format!(
                "{}launch 1  [session-restore, waits for 1 window, via /opt/firefox — recorded exe missing]",
                pad("firefox")
            ),
            format!("{}launch 1 [args: -x -y]", pad("b")),
            format!("{}SKIP (binary missing, no .desktop match)", pad("gone")),
            String::new(),
        ]
    );
}

#[test]
fn dry_run_of_self_restoring_apps() {
    let session = session_of(vec![ws_entry(4, &["zed", "zed"])]);
    let cfg = quick();
    let dry = run_dry(&session, &[], &cfg, Some(4), &Vec::new()).unwrap();
    let lines = dry.report(&vec![vec![Some(vec!["/usr/bin/zed".to_owned()])]]);
    assert_eq!(
        lines[1],
        format!(
            "    {:<40} → launch 1  [session-restore, waits for 2 windows]",
            "zed"
        )
    );
    assert_eq!(
        run_dry(&session, &[], &cfg, Some(5), &Vec::new())
            .err()
            .unwrap(),
        "workspace 5 not found in session"
    );
}

#[test]
fn dry_run_plans_what_a_restore_launches() {
    let session = session_of(vec![ws_entry(1, &["a", "b"]), ws_entry(2, &["a", "b", "b"])]);
    let clients = vec![client_at("0x1", "a", 1, 0), client_at("0x2", "b", 9, 0)];
    let cfg = quick();
    let dry = run_dry(&session, &[], &cfg, None, &clients).unwrap();
    let planned: usize = dry.plans.iter().flatten().map(|p| p.needed).sum();
    let mut mock = Mock::new(clients);
    mock.restore(&session, &cfg, None).unwrap();
    assert_eq!(mock.spawned.len(), planned);
    assert_eq!(planned, 3);
}

#[test]
fn workspace_that_cannot_be_focused_takes_no_open_window() {
    let session = session_of(vec![ws_entry(1, &["a"]), ws_entry(2, &["a"])]);
    let open = vec![client_at("0xA", "a", 2, 0)];
    let mut mock = Mock::new(open.clone());
    mock.restore(&session, &quick(), None).unwrap();
    assert_eq!(mock.spawned.len(), 1, "the open window is taken once");
    let mut mock = Mock::new(open);
    mock.fail_focus.insert(1);
    mock.restore(&session, &quick(), None).unwrap();
    assert!(mock.spawned.is_empty(), "the second workspace takes it");
}

#[test]
fn launches_stop_once_enough_windows_are_open() {
    let session = session_of(vec![ws_entry(1, &["a", "a", "a"])]);
    let mut mock = Mock::new(Vec::new());
    // Two more windows come with the first one: they are there when the windows
    // are counted before the second launch.
    mock.strays.push((4, client_at("0xX", "a", 1, 50)));
    mock.strays.push((4, client_at("0xY", "a", 1, 60)));
    mock.restore(&session, &quick(), None).unwrap();
    assert_eq!(mock.spawned.len(), 1);
}

#[test]
fn one_attempt_brings_all_columns_into_order() {
    let entry = ws_entry(1, &["d", "a", "c", "b"]);
    let mut mock = Mock::new(vec![
        client_at("0xA", "a", 1, 0),
        client_at("0xB", "b", 1, 10),
        client_at("0xC", "c", 1, 20),
        client_at("0xD", "d", 1, 30),
    ]);
    mock.reorder(1, &entry).unwrap();
    assert_eq!(mock.order(1), vec!["d", "a", "c", "b"]);
    assert_eq!(mock.swaps, 4, "three for the first column, one for the third");
}

#[test]
fn reorder_hands_failures_on() {
    let entry = ws_entry(1, &["a"]);
    let (mut reorder, _) = Reorder::<f64>::start(1);
    let turn = reorder.reorder_columns(1, &entry.windows, Reply::Failed("gone".to_owned()));
    assert!(turn.commands.is_empty());
    match turn.query {
        Query::Finish(Err(e)) => assert_eq!(e, "gone"),
        _ => panic!("the work is over"),
    }
}

#[test]
fn restore_ends_whatever_is_answered() {
    let session = session_of(vec![ws_entry(1, &["a", "b"]), ws_entry(2, &["zed"])]);
    let cfg = quick();
    let answers: [fn() -> Reply; 4] = [
        || Reply::Done,
        || Reply::Clients(Vec::new()),
        || Reply::Command(Some(vec!["x".to_owned()])),
        || Reply::Count(0),
    ];
    for first in 0..answers.len() {
        let (mut restore, _) = run(&session, "test", &[], &cfg, None).unwrap();
        let mut ended = false;
        for n in 0..200 {
            let reply = match n {
                0 | 2 => Reply::Done,
                1 => Reply::Clients(Vec::new()),
                _ => answers[(first + n) % answers.len()](),
            };
            if matches!(restore.follow(reply).query, Query::Finish(_)) {
                ended = true;
                break;
            }
        }
        assert!(ended);
    }
}

#[test]
fn diagnostics_of_a_restore() {
    let session = session_of(vec![ws_entry(1, &["c", "a", "b", "b"])]);
    let mut mock = Mock::new(vec![client_at("0xA", "a", 1, 0)]);
    // The second window of "b" comes by itself while the first one is launched.
    mock.strays.push((6, client_at("0xB", "b", 1, 60)));
    mock.restore(&session, &quick(), None).unwrap();
    assert_eq!(
        mock.debugged,
        vec![
            "  c: saved=1 pre=0 needed=1 before=0",
            "  a: skipped (pre-existing covers all 1)",
            "  b: saved=2 pre=0 needed=2 before=0",
            "  b launch 2/2: already at 2",
            "  reorder: bubble c from col 1 → 0 (1 swap(s))",
        ]
    );
    assert_eq!(mock.order(1), vec!["c", "a", "b", "b"]);
}

#[test]
fn diagnostics_of_apps_that_restore_themselves() {
    let session = session_of(vec![ws_entry(1, &["zed"]), ws_entry(2, &["firefox", "firefox"])]);
    let mut mock = Mock::new(vec![client_at("0xF", "other", 1, 0)]);
    mock.restore(&session, &quick(), None).unwrap();
    assert_eq!(
        mock.debugged,
        vec![
            "  zed: saved=1 pre=0 needed=1 before=0",
            "  zed: 1/1 windows appeared (total: 1)",
            "  reorder: bubble zed from col 1 → 0 (1 swap(s))",
            "  firefox: saved=2 pre=0 needed=2 before=0",
            "  firefox: 1/2 windows appeared (total: 1) — timed out",
        ]
    );
}

#[test]
fn diagnostics_of_missing_and_stray_windows() {
    let session = session_of(vec![ws_entry(1, &["x", "a"])]);
    let mut mock = Mock::new(vec![client_at("0xA", "a", 1, 0), client_at("0xX", "x", 9, 0)]);
    mock.strays.push((2, client_at("0xS", "x", 4, 0)));
    mock.restore(&session, &quick(), None).unwrap();
    assert_eq!(
        mock.debugged,
        vec![
            "  x: skipped (pre-existing covers all 1)",
            "  a: skipped (pre-existing covers all 1)",
            "  reorder: no x found after position 0, skipping",
            "  fix: x strayed to ws4 → moving to ws1",
            "  reorder: bubble x from col 1 → 0 (1 swap(s))",
        ]
    );
}

#[test]
fn reorder_puts_further_windows_last() {
    let entry = ws_entry(1, &["a", "b"]);
    let mut mock = Mock::new(vec![
        client_at("0xA", "a", 1, 0),
        client_at("0xC", "c", 1, 10),
        client_at("0xB", "b", 1, 20),
    ]);
    mock.reorder(1, &entry).unwrap();
    assert_eq!(mock.order(1), vec!["a", "b", "c"]);
    assert!(mock.warned.is_empty());
}

#[test]
fn dry_run_looks_its_commands_up() {
    let session = session_of(vec![ws_entry(1, &["a", "b", "c", "open"])]);
    let cfg = quick();
    let clients = vec![client_at("0x1", "open", 1, 0)];
    let dry = run_dry(&session, &[], &cfg, None, &clients).unwrap();
    let entries = vec![DesktopFile {
        file_name: Some("B.desktop".to_owned()),
        text: Some("[Desktop Entry]\nExec=/opt/b --new\n".to_owned()),
    }];
    let exists = vec![vec![true, false, false, true]];
    assert_eq!(
        dry.commands(&exists, &entries),
        vec![vec![
            Some(vec!["/usr/bin/a".to_owned()]),
            Some(vec!["/opt/b".to_owned(), "--new".to_owned()]),
            None,
            None,
        ]]
    );
    let pad = |class: &str| format!("    {class:<40} → ");
    assert_eq!(
        dry.show(&exists, &entries),
        vec![
            "  workspace 1 (4 windows)  ← active".to_owned(),
            format!("{}launch 1", pad("a")),
            format!("{}launch 1  [via /opt/b — recorded exe missing]", pad("b")),
            format!("{}SKIP (binary missing, no .desktop match)", pad("c")),
            format!("{}skip (1 already open)", pad("open")),
            String::new(),
        ]
    );
    match resolve_reply("b", "/usr/bin/b", false, &entries) {
        Reply::Command(c) => assert_eq!(c.unwrap(), vec!["/opt/b", "--new"]),
        _ => panic!("a command is the answer"),
    }
}
