use hypr_recall::desktop_entry::{
    collect_desktop_files, find_key, parse_exec, resolve_by_class, resolve_by_name, search_dirs,
    split_exec, strip_field_codes, DesktopFile, DirEntry,
};

fn entry(file_name: &str, text: &str) -> DesktopFile {
    DesktopFile {
        file_name: Some(file_name.to_owned()),
        text: Some(text.to_owned()),
    }
}

#[test]
fn matches_by_startup_wm_class() {
    let entries = vec![entry(
        "discord.desktop",
        "[Desktop Entry]\nName=Discord\nExec=/usr/bin/discord --start-minimized\nStartupWMClass=discord\n",
    )];
    let cmd = resolve_by_class("discord", &entries).unwrap();
    assert_eq!(cmd, vec!["/usr/bin/discord", "--start-minimized"]);
}

#[test]
fn startup_wm_class_matches_case_insensitively() {
    let entries = vec![entry(
        "discord.desktop",
        "[Desktop Entry]\nExec=/usr/bin/discord\nStartupWMClass=Discord\n",
    )];
    let cmd = resolve_by_class("discord", &entries).unwrap();
    assert_eq!(cmd, vec!["/usr/bin/discord"]);
}

#[test]
fn falls_back_to_filename_when_no_wm_class_matches() {
    let entries = vec![entry(
        "ghostty.desktop",
        "[Desktop Entry]\nExec=/usr/bin/ghostty\n",
    )];
    let cmd = resolve_by_class("ghostty", &entries).unwrap();
    assert_eq!(cmd, vec!["/usr/bin/ghostty"]);
}

#[test]
fn strips_field_codes_from_exec() {
    let entries = vec![entry(
        "app.desktop",
        "[Desktop Entry]\nExec=/usr/bin/app %U --flag %f\nStartupWMClass=app\n",
    )];
    let cmd = resolve_by_class("app", &entries).unwrap();
    assert_eq!(cmd, vec!["/usr/bin/app", "--flag"]);
}

#[test]
fn no_match_returns_none() {
    let entries = vec![entry(
        "other.desktop",
        "[Desktop Entry]\nExec=/usr/bin/other\nStartupWMClass=other\n",
    )];
    assert!(resolve_by_class("discord", &entries).is_none());
}

#[test]
fn missing_directory_is_skipped_not_an_error() {
    let listings: Vec<Option<Vec<DirEntry<&str>>>> = vec![
        None,
        Some(vec![
            DirEntry {
                path: "/a/x.desktop",
                extension: Some("desktop".to_owned()),
            },
            DirEntry {
                path: "/a/x.txt",
                extension: Some("txt".to_owned()),
            },
            DirEntry {
                path: "/a/x",
                extension: None,
            },
        ]),
    ];
    let found = collect_desktop_files(listings);
    assert_eq!(found.len(), 1);
    assert_eq!(found[0].path, "/a/x.desktop");
    assert!(resolve_by_class("discord", &Vec::new()).is_none());
}

#[test]
fn search_dirs_includes_standard_locations() {
    let dirs = search_dirs(Some("/home/me".to_owned()));
    assert!(dirs.iter().any(|d| d.ends_with("/usr/share/applications")));
    assert!(dirs
        .iter()
        .any(|d| d.ends_with("/var/lib/flatpak/exports/share/applications")));
    assert_eq!(dirs[0], "/home/me/.local/share/applications");
}

#[test]
fn search_dirs_without_a_home() {
    assert_eq!(
        search_dirs(None),
        vec![
            "/usr/share/applications",
            "/var/lib/flatpak/exports/share/applications",
            "/usr/local/share/applications",
        ]
    );
}

#[test]
fn file_names_are_compared_with_the_lower_case_class() {
    // Only ASCII letters are compared without regard to case, so the class has to
    // be in lower case before.
    let entries = vec![entry(
        "ärger.desktop",
        "[Desktop Entry]\nExec=/usr/bin/aerger\n",
    )];
    assert_eq!(
        resolve_by_class("ÄRGER", &entries).unwrap(),
        vec!["/usr/bin/aerger"]
    );
    assert!(resolve_by_name("ÄRGER", "ÄRGER.desktop", &entries).is_none());
    assert!(resolve_by_name("ÄRGER", "ärger.desktop", &entries).is_some());
}

#[test]
fn file_named_after_the_class_is_found_as_it_is() {
    let own = entry("ÄRGER.desktop", "[Desktop Entry]\nExec=/usr/bin/own\n");
    let lower = entry("ärger.desktop", "[Desktop Entry]\nExec=/usr/bin/lower\n");
    assert_eq!(
        resolve_by_class("ÄRGER", &vec![own.clone()]).unwrap(),
        vec!["/usr/bin/own"]
    );
    assert_eq!(
        resolve_by_class("ÄRGER", &vec![own, lower]).unwrap(),
        vec!["/usr/bin/lower"],
        "the name in lower case comes first"
    );
}

#[test]
fn wm_class_wins_over_the_file_name() {
    let entries = vec![
        entry("app.desktop", "[Desktop Entry]\nExec=/usr/bin/by-name\n"),
        entry(
            "other.desktop",
            "[Desktop Entry]\nExec=/usr/bin/by-class\nStartupWMClass=app\n",
        ),
    ];
    assert_eq!(
        resolve_by_class("app", &entries).unwrap(),
        vec!["/usr/bin/by-class"]
    );
}

#[test]
fn unreadable_entries_are_passed_over() {
    let entries = vec![
        DesktopFile {
            file_name: Some("app.desktop".to_owned()),
            text: None,
        },
        DesktopFile {
            file_name: None,
            text: Some("[Desktop Entry]\nExec=/usr/bin/app\n".to_owned()),
        },
    ];
    assert!(resolve_by_class("app", &entries).is_none());
}

#[test]
fn keys_of_other_sections_do_not_count() {
    let text = "[Desktop Action new]\nExec=/usr/bin/other\n[Desktop Entry]\nExec=/usr/bin/app\n[X]\nExec=/usr/bin/third\n";
    assert_eq!(find_key(text, "Exec").unwrap(), "/usr/bin/app");
    assert!(find_key(text, "StartupWMClass").is_none());
}

#[test]
fn field_codes_and_percent_signs() {
    assert_eq!(strip_field_codes("app %U --flag %f"), "app  --flag ");
    assert_eq!(strip_field_codes("app 100%%"), "app 100%");
    assert_eq!(strip_field_codes("plain"), "plain");
}

#[test]
fn quoted_arguments_stay_together() {
    assert_eq!(
        split_exec("app \"two words\" last"),
        vec!["app", "two words", "last"]
    );
    assert!(parse_exec("  ").is_none());
    assert_eq!(parse_exec("app %u").unwrap(), vec!["app"]);
}
