use hypr_recall::session::{
    count_windows, migrate, Session, SessionError, SessionFile, WindowEntry, WorkspaceEntry,
    SESSION_VERSION,
};

fn sample() -> Session<f64> {
    Session {
        version: SESSION_VERSION,
        active_workspace: 2,
        workspaces: vec![
            WorkspaceEntry {
                workspace: 1,
                windows: vec![
                    WindowEntry {
                        class: "firefox".into(),
                        exe: "/usr/lib/firefox/firefox".into(),
                        launch_args: None,
                        col_width: 0.989,
                    },
                    WindowEntry {
                        class: "com.mitchellh.ghostty".into(),
                        exe: "/usr/bin/ghostty".into(),
                        launch_args: None,
                        col_width: 0.493,
                    },
                ],
            },
            WorkspaceEntry {
                workspace: 2,
                windows: vec![WindowEntry {
                    class: "dev.zed.Zed".into(),
                    exe: "/usr/bin/zed".into(),
                    launch_args: None,
                    col_width: 1.0,
                }],
            },
        ],
    }
}

/// What the text of a session file holds.
fn file(json: &str) -> SessionFile<f64> {
    let value: serde_json::Value = serde_json::from_str(json).unwrap();
    let text = |v: &serde_json::Value| v.as_str().unwrap().to_owned();
    SessionFile {
        version: value
            .get("version")
            .map(|v| v.as_u64().unwrap().try_into().unwrap()),
        active_workspace: value["active_workspace"]
            .as_i64()
            .unwrap()
            .try_into()
            .unwrap(),
        workspaces: value["workspaces"]
            .as_array()
            .unwrap()
            .iter()
            .map(|w| WorkspaceEntry {
                workspace: w["workspace"].as_i64().unwrap().try_into().unwrap(),
                windows: w["windows"]
                    .as_array()
                    .unwrap()
                    .iter()
                    .map(|w| WindowEntry {
                        class: text(&w["class"]),
                        exe: text(&w["exe"]),
                        launch_args: w
                            .get("launch_args")
                            .map(|a| a.as_array().unwrap().iter().map(text).collect()),
                        col_width: w["col_width"].as_f64().unwrap(),
                    })
                    .collect(),
            })
            .collect(),
    }
}

#[test]
fn round_trip() {
    let session = sample();
    let loaded = Session::load(session.clone().save_to()).unwrap();
    assert_eq!(session, loaded);
}

#[test]
fn wrong_version_errors() {
    let err = Session::load(file(
        r#"{"version":99,"active_workspace":1,"workspaces":[]}"#,
    ))
    .unwrap_err();
    assert!(err.message().contains("version 99"));
    assert_eq!(err, SessionError::TooNew(99));
    assert_eq!(
        err.message(),
        "session file version 99 is newer than this build supports (current format is version 1)\n\
         Update hypr-recall to restore this session."
    );
}

#[test]
fn missing_version_field_migrates_to_current() {
    let session = Session::load(file(r#"{"active_workspace":1,"workspaces":[]}"#)).unwrap();
    assert_eq!(session.version, SESSION_VERSION);
}

#[test]
fn migrated_session_round_trips_at_current_version() {
    let session = Session::load(file(
        r#"{"active_workspace":1,"workspaces":[{"workspace":1,"windows":[{"class":"foo","exe":"/usr/bin/foo","col_width":0.5}]}]}"#,
    ))
    .unwrap();
    let reloaded = Session::load(session.clone().save_to()).unwrap();
    assert_eq!(reloaded.version, SESSION_VERSION);
    assert_eq!(reloaded, session);
}

#[test]
fn launch_args_round_trip() {
    let mut session = sample();
    session.workspaces[0].windows[0].launch_args = Some(vec![
        "--no-sandbox".to_owned(),
        "--profile".to_owned(),
        "/tmp/p".to_owned(),
    ]);
    let loaded = Session::load(session.clone().save_to()).unwrap();
    assert_eq!(
        loaded.workspaces[0].windows[0].launch_args,
        session.workspaces[0].windows[0].launch_args
    );
}

#[test]
fn launch_args_missing_in_json_loads_as_none() {
    let session = Session::load(file(
        r#"{"version":1,"active_workspace":1,"workspaces":[{"workspace":1,"windows":[{"class":"foo","exe":"/usr/bin/foo","col_width":0.5}]}]}"#,
    ))
    .unwrap();
    assert_eq!(session.workspaces[0].windows[0].launch_args, None);
}

#[test]
fn merge_workspace_replaces_existing_entry() {
    let mut session = sample();
    let replacement = WorkspaceEntry {
        workspace: 2,
        windows: vec![WindowEntry {
            class: "new-app".into(),
            exe: "/usr/bin/new-app".into(),
            launch_args: None,
            col_width: 0.75,
        }],
    };
    session.merge_workspace(2, Some(replacement.clone()));
    assert_eq!(session.workspaces.len(), 2);
    assert_eq!(session.workspaces[1], replacement);
}

#[test]
fn merge_workspace_removes_entry_on_none() {
    let mut session = sample();
    session.merge_workspace(2, None);
    assert_eq!(session.workspaces.len(), 1);
    assert_eq!(session.workspaces[0].workspace, 1);
}

#[test]
fn merge_workspace_none_on_missing_id_is_noop() {
    let mut session = sample();
    session.merge_workspace(99, None);
    assert_eq!(session.workspaces.len(), 2);
    assert_eq!(session, sample());
}

#[test]
fn merge_workspace_inserts_sorted_between_existing() {
    let mut session = sample(); // workspaces [1, 2]
    session.workspaces[1].workspace = 5; // now [1, 5]
    let inserted = WorkspaceEntry {
        workspace: 2,
        windows: vec![],
    };
    session.merge_workspace(2, Some(inserted.clone()));
    assert_eq!(
        session
            .workspaces
            .iter()
            .map(|w| w.workspace)
            .collect::<Vec<_>>(),
        vec![1, 2, 5]
    );
}

#[test]
fn merge_workspace_inserts_correctly_when_workspaces_are_unsorted() {
    // A session file that was edited by hand need not be sorted.
    let mut session: Session<f64> = Session {
        version: SESSION_VERSION,
        active_workspace: 1,
        workspaces: vec![
            WorkspaceEntry {
                workspace: 3,
                windows: vec![],
            },
            WorkspaceEntry {
                workspace: 1,
                windows: vec![],
            },
        ],
    };
    let inserted = WorkspaceEntry {
        workspace: 2,
        windows: vec![],
    };
    session.merge_workspace(2, Some(inserted.clone()));
    assert_eq!(
        session
            .workspaces
            .iter()
            .map(|w| w.workspace)
            .collect::<Vec<_>>(),
        vec![1, 2, 3],
        "expected workspace 2 to land between 1 and 3 even though the \
         input vec was unsorted"
    );
}

#[test]
fn merge_workspace_inserts_into_empty_session() {
    let mut session: Session<f64> = Session {
        version: SESSION_VERSION,
        active_workspace: 1,
        workspaces: vec![],
    };
    let entry = WorkspaceEntry {
        workspace: 3,
        windows: vec![],
    };
    session.merge_workspace(3, Some(entry.clone()));
    assert_eq!(session.workspaces, vec![entry]);
}

#[test]
fn merging_twice_is_merging_once() {
    let mut session = sample();
    let entry = sample().workspaces[1].clone();
    session.merge_workspace(2, Some(entry.clone()));
    let once = session.clone();
    session.merge_workspace(2, Some(entry));
    assert_eq!(session, once);
}

#[test]
fn merging_replaces_duplicates_of_the_workspace_only() {
    let mut session = sample();
    let twin = session.workspaces[1].clone();
    session.workspaces.push(twin);
    let first = session.workspaces[0].clone();
    session.merge_workspace(
        2,
        Some(WorkspaceEntry {
            workspace: 2,
            windows: vec![],
        }),
    );
    assert_eq!(session.workspaces.len(), 2);
    assert_eq!(session.workspaces[0], first);
    assert!(session.workspaces[1].windows.is_empty());
}

#[test]
fn newer_sessions_are_not_migrated() {
    let mut session = sample();
    session.version = SESSION_VERSION + 1;
    assert!(migrate(&mut session).is_ok());
    assert_eq!(session.version, SESSION_VERSION + 1);
    assert_eq!(
        SessionError::NoMigration(7).message(),
        "no migration path from session version 7"
    );
}

#[test]
fn windows_are_counted_over_all_workspaces() {
    assert_eq!(count_windows(&sample().workspaces), 3);
    assert_eq!(count_windows::<f64>(&Vec::new()), 0);
}
