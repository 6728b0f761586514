use std::collections::HashMap;

use hypr_recall::hyprland::HyprClient;
use hypr_recall::restore::{columns_match, live_windows};
use hypr_recall::save::{
    capture_workspaces, group_into_workspaces, is_captured, load_refused, monitor_width, run,
    run_full, run_scoped, scoped_outcome, Probed, Scope, ScopedOutcome,
};
use hypr_recall::session::{Session, WindowEntry, WorkspaceEntry, SESSION_VERSION};

fn window(class: &str) -> WindowEntry<f64> {
    WindowEntry {
        class: class.to_owned(),
        exe: format!("/usr/bin/{class}"),
        launch_args: None,
        col_width: 0.5,
    }
}

#[test]
fn group_into_workspaces_orders_by_workspace_then_x() {
    let rows = vec![
        (2, 100, window("b")),
        (1, 200, window("a2")),
        (1, 0, window("a1")),
        (2, 0, window("a")),
    ];

    let workspaces = group_into_workspaces(rows);

    assert_eq!(workspaces.len(), 2);
    assert_eq!(workspaces[0].workspace, 1);
    assert_eq!(
        workspaces[0]
            .windows
            .iter()
            .map(|w| w.class.as_str())
            .collect::<Vec<_>>(),
        vec!["a1", "a2"]
    );
    assert_eq!(workspaces[1].workspace, 2);
    assert_eq!(
        workspaces[1]
            .windows
            .iter()
            .map(|w| w.class.as_str())
            .collect::<Vec<_>>(),
        vec!["a", "b"]
    );
}

#[test]
fn group_into_workspaces_empty_input_is_empty() {
    assert_eq!(group_into_workspaces::<f64>(Vec::new()), Vec::new());
}

#[test]
fn grouping_keeps_the_order_of_equal_positions_and_takes_negative_ones() {
    let rows = vec![
        (1, 0, window("c")),
        (1, 0, window("d")),
        (1, -5, window("b")),
        (1, i32::MIN, window("a")),
        (1, i32::MAX, window("e")),
        (2, i32::MIN, window("f")),
    ];
    let workspaces = group_into_workspaces(rows);
    assert_eq!(workspaces.len(), 2);
    assert_eq!(
        workspaces[0]
            .windows
            .iter()
            .map(|w| w.class.as_str())
            .collect::<Vec<_>>(),
        vec!["a", "b", "c", "d", "e"]
    );
}

#[test]
fn scoped_outcome_saved_when_windows_captured() {
    assert_eq!(scoped_outcome(false, Some(3)), ScopedOutcome::Saved(3));
    assert_eq!(scoped_outcome(true, Some(0)), ScopedOutcome::Saved(0));
}

#[test]
fn scoped_outcome_removed_when_empty_but_previously_present() {
    assert_eq!(scoped_outcome(true, None), ScopedOutcome::Removed);
}

#[test]
fn scoped_outcome_noop_when_empty_and_never_present() {
    assert_eq!(scoped_outcome(false, None), ScopedOutcome::NoOp);
}

fn client(class: &str, workspace: i32, x: i32) -> HyprClient {
    HyprClient {
        address: format!("0x{class}"),
        initial_class: class.to_owned(),
        x,
        width: 100,
        workspace_id: workspace,
        pid: 1,
        monitor: 0,
        floating: false,
        mapped: true,
    }
}

fn probed(client: HyprClient) -> Probed<f64> {
    let exe = format!("/usr/bin/{}", client.initial_class);
    Probed {
        client,
        exe: Some(exe),
        col_width: 0.25,
    }
}

#[test]
fn only_tiled_windows_on_ordinary_workspaces_are_saved() {
    let mut floating = client("floating", 1, 0);
    floating.floating = true;
    let mut unmapped = client("unmapped", 1, 0);
    unmapped.mapped = false;
    let special = client("special", -99, 0);
    assert!(!is_captured(&floating, None));
    assert!(!is_captured(&unmapped, None));
    assert!(!is_captured(&special, None));
    assert!(is_captured(&client("a", 1, 0), None));
    assert!(is_captured(&client("a", 1, 0), Some(1)));
    assert!(!is_captured(&client("a", 1, 0), Some(2)));

    let mut unreadable = probed(client("unreadable", 1, 5));
    unreadable.exe = None;
    let mut updated = probed(client("updated", 2, 7));
    updated.exe = Some("/usr/bin/updated (deleted)".to_owned());
    let workspaces = capture_workspaces(
        vec![
            probed(floating),
            updated,
            probed(unmapped),
            probed(special),
            unreadable,
            probed(client("b", 1, 20)),
            probed(client("a", 1, 10)),
        ],
        None,
    );
    assert_eq!(
        workspaces,
        vec![
            WorkspaceEntry {
                workspace: 1,
                windows: vec![
                    WindowEntry {
                        class: "a".to_owned(),
                        exe: "/usr/bin/a".to_owned(),
                        launch_args: None,
                        col_width: 0.25,
                    },
                    WindowEntry {
                        class: "b".to_owned(),
                        exe: "/usr/bin/b".to_owned(),
                        launch_args: None,
                        col_width: 0.25,
                    },
                ],
            },
            WorkspaceEntry {
                workspace: 2,
                windows: vec![WindowEntry {
                    class: "updated".to_owned(),
                    exe: "/usr/bin/updated".to_owned(),
                    launch_args: None,
                    col_width: 0.25,
                }],
            },
        ]
    );
}

#[test]
fn capture_of_one_workspace_leaves_the_others_out() {
    let workspaces = capture_workspaces(
        vec![probed(client("a", 1, 0)), probed(client("b", 2, 0))],
        Some(2),
    );
    assert_eq!(workspaces.len(), 1);
    assert_eq!(workspaces[0].workspace, 2);
}

#[test]
fn saved_columns_match_the_open_ones() {
    let open = vec![client("c", 1, 30), client("a", 1, 10), client("b", 1, 20)];
    let workspaces = capture_workspaces(open.iter().cloned().map(probed).collect(), None);
    let saved: Vec<&str> = workspaces[0]
        .windows
        .iter()
        .map(|w| w.class.as_str())
        .collect();
    assert_eq!(saved, vec!["a", "b", "c"]);
    assert!(columns_match(&saved, &live_windows(open, 1)));
}

#[test]
fn monitor_width_has_a_fallback() {
    let monitors = HashMap::from([(0, 2560), (1, 0)]);
    assert_eq!(monitor_width(&monitors, 0), 2560);
    assert_eq!(monitor_width(&monitors, 1), 0);
    assert_eq!(monitor_width(&monitors, 2), 1920);
}

#[test]
fn nothing_is_saved_during_a_restore() {
    assert_eq!(run(true, None), Scope::Nothing);
    assert_eq!(run(true, Some(1)), Scope::Nothing);
    assert_eq!(run(false, None), Scope::Full);
    assert_eq!(run(false, Some(1)), Scope::Workspace(1));
}

fn entry(id: i32, classes: &[&str]) -> WorkspaceEntry<f64> {
    WorkspaceEntry {
        workspace: id,
        windows: classes.iter().map(|c| window(c)).collect(),
    }
}

#[test]
fn full_save_tells_what_it_saved() {
    let (session, told) = run_full(2, vec![entry(1, &["a", "b"]), entry(2, &["c"])], "work");
    assert_eq!(session.version, SESSION_VERSION);
    assert_eq!(session.active_workspace, 2);
    assert_eq!(session.workspaces.len(), 2);
    assert_eq!(told, "saved 'work' — 3 windows across 2 workspaces");
}

#[test]
fn scoped_save_leaves_other_workspaces_alone() {
    let existing = Session {
        version: SESSION_VERSION,
        active_workspace: 1,
        workspaces: vec![entry(1, &["a"]), entry(3, &["c"])],
    };
    let scoped = run_scoped(
        Some(existing.clone()),
        vec![entry(2, &["b", "d"])],
        "work",
        2,
    );
    assert_eq!(scoped.outcome, ScopedOutcome::Saved(2));
    assert_eq!(
        scoped.session.workspaces,
        vec![entry(1, &["a"]), entry(2, &["b", "d"]), entry(3, &["c"])]
    );
    assert_eq!(scoped.session.active_workspace, 1);
    assert_eq!(
        scoped.message,
        "saved workspace 2 to 'work' — 2 windows (workspace 2 only)"
    );

    let removed = run_scoped(Some(existing.clone()), Vec::new(), "work", 3);
    assert_eq!(removed.outcome, ScopedOutcome::Removed);
    assert_eq!(removed.session.workspaces, vec![entry(1, &["a"])]);
    assert_eq!(
        removed.message,
        "workspace 3 has no windows, removed from 'work'"
    );

    let nothing = run_scoped(Some(existing.clone()), Vec::new(), "work", 9);
    assert_eq!(nothing.outcome, ScopedOutcome::NoOp);
    assert_eq!(nothing.session, existing);
    assert_eq!(
        nothing.message,
        "workspace 9 has no windows, nothing to save"
    );
}

#[test]
fn scoped_save_without_a_session_starts_one() {
    let scoped = run_scoped(None, vec![entry(4, &["a"])], "work", 4);
    assert_eq!(scoped.session.version, SESSION_VERSION);
    assert_eq!(scoped.session.active_workspace, 4);
    assert_eq!(scoped.session.workspaces, vec![entry(4, &["a"])]);
    assert_eq!(
        load_refused("work"),
        "failed to load existing session 'work' — refusing to overwrite it"
    );
}
