use hypr_recall::config::{flatten, Config, ConfigError, FileValue, Setting, SettingValue};

fn value(v: &toml::Value) -> FileValue {
    match v {
        toml::Value::Boolean(b) => FileValue::Bool(*b),
        toml::Value::Integer(n) => FileValue::Integer(*n),
        toml::Value::String(s) => FileValue::Text(s.clone()),
        toml::Value::Array(items) => FileValue::List(items.iter().map(value).collect()),
        toml::Value::Table(t) => FileValue::Table(table(t)),
        toml::Value::Float(_) | toml::Value::Datetime(_) => FileValue::Other,
    }
}

fn table(t: &toml::Table) -> Vec<(String, FileValue)> {
    t.iter().map(|(k, v)| (k.clone(), value(v))).collect()
}

fn settings(text: &str) -> Vec<(String, FileValue)> {
    table(&text.parse().expect("valid toml"))
}

fn parse(text: &str) -> Config {
    Config::load(Some(settings(text))).expect("valid config")
}

#[test]
fn defaults_when_empty() {
    let cfg = parse("");
    assert!(cfg.overlay);
    assert_eq!(cfg.settle_delay_secs, 4);
    assert!(cfg.session_restore_apps.is_empty());
    assert!(cfg.apps.is_empty());
}

#[test]
fn overlay_can_be_disabled() {
    let cfg = parse("overlay = false");
    assert!(!cfg.overlay);
}

#[test]
fn session_restore_apps_list() {
    let cfg = parse(r#"session_restore_apps = ["myapp", "another"]"#);
    assert!(cfg.is_session_restore_app("myapp", &[], &[]));
    assert!(cfg.is_session_restore_app("another", &[], &[]));
    assert!(!cfg.is_session_restore_app("unknown", &[], &[]));
}

#[test]
fn per_app_session_restore_flag() {
    let cfg = parse("[apps.myapp]\nsession_restore = true");
    assert!(cfg.is_session_restore_app("myapp", &[], &[]));
}

#[test]
fn launch_args_from_config() {
    let cfg = parse(
        r#"[apps.firefox]
launch_args = ["--profile", "/tmp/test"]"#,
    );
    assert_eq!(
        cfg.launch_args("firefox", None),
        &["--profile", "/tmp/test"]
    );
}

#[test]
fn launch_args_fallback_to_session() {
    let cfg = parse("");
    let session_args = vec!["--flag".to_owned()];
    assert_eq!(cfg.launch_args("firefox", Some(&session_args)), &["--flag"]);
}

#[test]
fn config_launch_args_override_session() {
    let cfg = parse(
        r#"[apps.firefox]
launch_args = ["--config-flag"]"#,
    );
    let session_args = vec!["--session-flag".to_owned()];
    assert_eq!(
        cfg.launch_args("firefox", Some(&session_args)),
        &["--config-flag"]
    );
}

#[test]
fn builtin_restore_apps_still_work() {
    let cfg = parse("");
    let builtin = &["firefox", "discord"];
    assert!(cfg.is_session_restore_app("firefox", builtin, &[]));
    assert!(cfg.is_session_restore_app("discord", builtin, &[]));
}

#[test]
fn cli_extra_still_works() {
    let cfg = parse("");
    let extra = vec!["myapp".to_owned()];
    assert!(cfg.is_session_restore_app("myapp", &[], &extra));
}

#[test]
fn no_file_gives_the_defaults() {
    let cfg = Config::load(None).unwrap();
    assert!(cfg.overlay);
    assert_eq!(cfg.settle_delay_secs, 4);
}

#[test]
fn documented_example_is_read() {
    let cfg = parse(
        r#"
overlay = true
settle_delay_secs = 4
session_restore_apps = ["my.electron.App"]

[apps.firefox]
launch_args = ["--profile", "~/.mozilla/work"]

[apps.my.electron.App]
session_restore = true
"#,
    );
    assert_eq!(
        cfg.launch_args("firefox", None),
        &["--profile", "~/.mozilla/work"]
    );
    assert!(cfg.apps.get("my.electron.App").unwrap().session_restore);
    assert!(cfg.is_session_restore_app("my.electron.App", &[], &[]));
}

#[test]
fn unknown_keys_are_rejected() {
    assert_eq!(
        Config::load(Some(settings("overlai = true"))).unwrap_err(),
        ConfigError::UnknownKey("overlai".to_owned())
    );
    assert_eq!(
        Config::load(Some(settings("[apps.firefox]\nlaunch_arg = []"))).unwrap_err(),
        ConfigError::UnknownKey("apps.firefox.launch_arg".to_owned())
    );
}

#[test]
fn values_of_another_type_are_rejected() {
    assert_eq!(
        Config::load(Some(settings("overlay = 1"))).unwrap_err(),
        ConfigError::WrongType("overlay".to_owned())
    );
    assert_eq!(
        Config::load(Some(settings("settle_delay_secs = -1"))).unwrap_err(),
        ConfigError::WrongType("settle_delay_secs".to_owned())
    );
}

#[test]
fn settle_delay_is_read() {
    assert_eq!(parse("settle_delay_secs = 11").settle_delay_secs, 11);
}

#[test]
fn an_empty_app_table_sets_nothing() {
    let cfg = parse("[apps.firefox]");
    let session_args = vec!["--flag".to_owned()];
    assert_eq!(cfg.launch_args("firefox", Some(&session_args)), &["--flag"]);
    assert!(!cfg.is_session_restore_app("firefox", &[], &[]));
}

#[test]
fn apps_do_not_share_settings() {
    let cfg = parse("[apps.a]\nsession_restore = true\n[apps.b]\nlaunch_args = [\"-x\"]");
    assert!(cfg.is_session_restore_app("a", &[], &[]));
    assert!(!cfg.is_session_restore_app("b", &[], &[]));
    assert!(cfg.launch_args("a", None).is_empty());
    assert_eq!(cfg.launch_args("b", None), &["-x"]);
}

#[test]
fn tables_in_place_of_values_are_rejected() {
    for (text, key) in [
        ("[apps.firefox]\nlaunch_args = {}", "apps.firefox.launch_args"),
        ("[apps.firefox.launch_args]", "apps.firefox.launch_args"),
        ("[apps.firefox.session_restore]", "apps.firefox.session_restore"),
        (
            "[apps.firefox.launch_args]\nsession_restore = true",
            "apps.firefox.launch_args.session_restore",
        ),
        ("overlay = {}", "overlay"),
        ("session_restore_apps = [1]", "session_restore_apps"),
        ("session_restore_apps = \"a\"", "session_restore_apps"),
        ("settle_delay_secs = 1.5", "settle_delay_secs"),
    ] {
        assert_eq!(
            Config::load(Some(settings(text))).unwrap_err(),
            ConfigError::WrongType(key.to_owned()),
            "{text}"
        );
    }
}

#[test]
fn tables_are_flattened_in_the_order_of_the_file() {
    let file = vec![
        (
            "apps".to_owned(),
            FileValue::Table(vec![
                ("a".to_owned(), FileValue::Table(Vec::new())),
                (
                    "b".to_owned(),
                    FileValue::Table(vec![(
                        "launch_args".to_owned(),
                        FileValue::List(vec![FileValue::Text("-x".to_owned())]),
                    )]),
                ),
            ]),
        ),
        ("overlay".to_owned(), FileValue::Bool(false)),
    ];
    let mut out = Vec::new();
    flatten(&Vec::new(), &file, &mut out);
    let path = |keys: &[&str]| keys.iter().map(|k| (*k).to_owned()).collect::<Vec<String>>();
    assert_eq!(
        out,
        vec![
            Setting {
                path: path(&["apps", "a"]),
                value: SettingValue::EmptyTable,
            },
            Setting {
                path: path(&["apps", "b", "launch_args"]),
                value: SettingValue::Texts(path(&["-x"])),
            },
            Setting {
                path: path(&["overlay"]),
                value: SettingValue::Bool(false),
            },
        ]
    );
}
