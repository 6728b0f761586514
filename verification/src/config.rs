//! The user's configuration.

use vstd::prelude::*;

use crate::collections::ClassMap;
use crate::text;

verus! {

/// What `overlay` is where the configuration does not say.
pub fn default_true() -> (r: bool)
    ensures
        r == true,
{
    true
}

/// What `settle_delay_secs` is where the configuration does not say.
pub fn default_settle_delay() -> (r: u64)
    ensures
        r == 4,
{
    4
}

/// Settings for one window class.
#[derive(Debug)]
pub struct AppConfig {
    /// Arguments to launch the app with. An empty list means that there are none
    /// to override the saved ones.
    pub launch_args: Vec<String>,
    /// Whether the app restores its own session.
    pub session_restore: bool,
}

/// The settings of one class, as values.
pub struct AppSettings {
    pub launch_args: Seq<Seq<char>>,
    pub session_restore: bool,
}

impl View for AppConfig {
    type V = AppSettings;

    open spec fn view(&self) -> AppSettings {
        AppSettings {
            launch_args: text::texts(self.launch_args@),
            session_restore: self.session_restore,
        }
    }
}

/// The user's configuration.
#[derive(Debug)]
pub struct Config {
    /// Whether to show the overlay during a restore.
    pub overlay: bool,
    /// Seconds to wait after a restore before stray windows are swept up.
    pub settle_delay_secs: u64,
    /// Classes to treat as session-restore apps besides the built-in ones.
    pub session_restore_apps: Vec<String>,
    /// Settings for single classes.
    pub apps: ClassMap<AppConfig>,
}

/// A configuration, as values.
pub struct Settings {
    pub overlay: bool,
    pub settle_delay_secs: u64,
    pub session_restore_apps: Seq<Seq<char>>,
    pub apps: Map<Seq<char>, AppSettings>,
}

impl View for Config {
    type V = Settings;

    open spec fn view(&self) -> Settings {
        Settings {
            overlay: self.overlay,
            settle_delay_secs: self.settle_delay_secs,
            session_restore_apps: text::texts(self.session_restore_apps@),
            apps: self.apps@.map_values(|a: AppConfig| a@),
        }
    }
}

/// The configuration of a user who has configured nothing.
pub open spec fn default_settings() -> Settings {
    Settings {
        overlay: true,
        settle_delay_secs: 4,
        session_restore_apps: Seq::empty(),
        apps: Map::empty(),
    }
}

/// A value as a configuration file has it.
#[derive(Debug)]
pub enum FileValue {
    Bool(bool),
    Integer(i64),
    Text(String),
    List(Vec<FileValue>),
    /// Keys with their values, in the order of the file.
    Table(Vec<(String, FileValue)>),
    /// Anything else, such as a date.
    Other,
}

/// One setting of a configuration file: the keys that lead to it, and its value.
#[derive(Debug, Clone, PartialEq)]
pub struct Setting {
    pub path: Vec<String>,
    pub value: SettingValue,
}

/// The value of a setting.
#[derive(Debug, Clone, PartialEq)]
pub enum SettingValue {
    Bool(bool),
    Integer(i64),
    /// A list that holds text and nothing else.
    Texts(Vec<String>),
    /// A table without keys.
    EmptyTable,
    /// Anything else.
    Other,
}

/// A setting, as values.
pub struct Entry {
    pub path: Seq<Seq<char>>,
    pub value: EntryValue,
}

/// The value of a setting, as values.
pub enum EntryValue {
    Bool(bool),
    Integer(i64),
    Texts(Seq<Seq<char>>),
    EmptyTable,
    Other,
}

impl View for SettingValue {
    type V = EntryValue;

    open spec fn view(&self) -> EntryValue {
        match *self {
            SettingValue::Bool(b) => EntryValue::Bool(b),
            SettingValue::Integer(n) => EntryValue::Integer(n),
            SettingValue::Texts(v) => EntryValue::Texts(text::texts(v@)),
            SettingValue::EmptyTable => EntryValue::EmptyTable,
            SettingValue::Other => EntryValue::Other,
        }
    }
}

impl View for Setting {
    type V = Entry;

    open spec fn view(&self) -> Entry {
        Entry { path: text::texts(self.path@), value: self.value@ }
    }
}

/// The values of a sequence of settings.
pub open spec fn entries(settings: Seq<Setting>) -> Seq<Entry> {
    settings.map_values(|s: Setting| s@)
}

/// The texts in a list, if it holds nothing else.
pub open spec fn list_texts(items: Seq<FileValue>) -> Option<Seq<Seq<char>>>
    decreases items.len(),
{
    if items.len() == 0 {
        Some(Seq::empty())
    } else {
        match (list_texts(items.drop_last()), items.last()) {
            (Some(before), FileValue::Text(t)) => Some(before.push(t@)),
            _ => None,
        }
    }
}

/// The value of a setting that is no table with keys.
pub open spec fn leaf(value: FileValue) -> EntryValue {
    match value {
        FileValue::Bool(b) => EntryValue::Bool(b),
        FileValue::Integer(n) => EntryValue::Integer(n),
        FileValue::List(items) => match list_texts(items@) {
            Some(texts) => EntryValue::Texts(texts),
            None => EntryValue::Other,
        },
        FileValue::Table(_) => EntryValue::EmptyTable,
        _ => EntryValue::Other,
    }
}

/// The settings in a value that the keys `path` lead to: those of a table with
/// keys, else the value itself.
pub open spec fn settings_in(path: Seq<Seq<char>>, value: FileValue) -> Seq<Entry>
    decreases value, 0nat,
{
    match value {
        FileValue::Table(table) => if table@.len() == 0 {
            seq![Entry { path, value: EntryValue::EmptyTable }]
        } else {
            settings_of(path, table, table@.len())
        },
        _ => seq![Entry { path, value: leaf(value) }],
    }
}

/// The settings under the first `n` keys of a table that the keys `path` lead to.
pub open spec fn settings_of(
    path: Seq<Seq<char>>,
    table: Vec<(String, FileValue)>,
    n: nat,
) -> Seq<Entry>
    decreases table, n,
    via settings_of_decreases
{
    if n == 0 || n > table@.len() {
        Seq::empty()
    } else {
        settings_of(path, table, (n - 1) as nat) + settings_in(
            path.push(table@[n - 1].0@),
            table@[n - 1].1,
        )
    }
}

#[via_fn]
proof fn settings_of_decreases(
    path: Seq<Seq<char>>,
    table: Vec<(String, FileValue)>,
    n: nat,
) {
    broadcast use vstd::std_specs::vec::axiom_vec_index_decreases;

    if 0 < n <= table@.len() {
        assert(decreases_to!(table => table[n - 1]));
    }
}

fn read_list(items: &Vec<FileValue>) -> (r: Option<Vec<String>>)
    ensures
        match r {
            Some(v) => list_texts(items@) == Some(text::texts(v@)),
            None => list_texts(items@) is None,
        },
{
    let mut out: Vec<String> = Vec::new();
    let mut i: usize = 0;
    assert(text::texts(out@) =~= Seq::<Seq<char>>::empty());
    while i < items.len()
        invariant
            0 <= i <= items@.len(),
            list_texts(items@.take(i as int)) == Some(text::texts(out@)),
        decreases items@.len() - i,
    {
        let ghost was = text::texts(out@);
        assert(items@.take(i as int + 1).drop_last() =~= items@.take(i as int));
        match &items[i] {
            FileValue::Text(t) => {
                out.push(t.clone());
                assert(text::texts(out@) =~= was.push(t@));
            },
            _ => {
                proof {
                    lemma_no_list(items@, i as int + 1);
                }
                return None;
            },
        }
        i += 1;
    }
    assert(items@.take(items@.len() as int) =~= items@);
    Some(out)
}

proof fn lemma_no_list(items: Seq<FileValue>, n: int)
    requires
        0 <= n <= items.len(),
        list_texts(items.take(n)) is None,
    ensures
        list_texts(items) is None,
    decreases items.len() - n,
{
    if n < items.len() {
        assert(items.take(n + 1).drop_last() =~= items.take(n));
        lemma_no_list(items, n + 1);
    } else {
        assert(items.take(n) =~= items);
    }
}

fn read_leaf(value: &FileValue) -> (r: SettingValue)
    ensures
        r@ == leaf(*value),
{
    match value {
        FileValue::Bool(b) => SettingValue::Bool(*b),
        FileValue::Integer(n) => SettingValue::Integer(*n),
        FileValue::List(items) => match read_list(items) {
            Some(texts) => SettingValue::Texts(texts),
            None => SettingValue::Other,
        },
        FileValue::Table(_) => SettingValue::EmptyTable,
        _ => SettingValue::Other,
    }
}

fn copy_path(path: &Vec<String>) -> (r: Vec<String>)
    ensures
        text::texts(r@) == text::texts(path@),
{
    let r: Vec<String> = path.clone();
    assert(r@ =~= path@);
    r
}

fn flatten_value(path: &Vec<String>, value: &FileValue, out: &mut Vec<Setting>)
    ensures
        entries(final(out)@) == entries(old(out)@) + settings_in(text::texts(path@), *value),
    decreases *value, 0nat,
{
    if let FileValue::Table(table) = value {
        if table.len() > 0 {
            flatten(path, table, out);
            return;
        }
    }
    let ghost was = entries(out@);
    let setting = Setting { path: copy_path(path), value: read_leaf(value) };
    out.push(setting);
    assert(entries(out@) =~= was.push(setting@));
    assert(entries(out@) =~= was + settings_in(text::texts(path@), *value));
}

/// Appends the settings of a table that the keys `path` lead to, in the order of
/// the file.
pub fn flatten(path: &Vec<String>, table: &Vec<(String, FileValue)>, out: &mut Vec<Setting>)
    ensures
        entries(final(out)@) == entries(old(out)@) + settings_of(
            text::texts(path@),
            *table,
            table@.len(),
        ),
    decreases *table, table@.len() + 1,
{
    let ghost was = entries(out@);
    let ghost keys = text::texts(path@);
    let mut i: usize = 0;
    assert(entries(out@) =~= was + settings_of(keys, *table, 0));
    while i < table.len()
        invariant
            0 <= i <= table@.len(),
            keys == text::texts(path@),
            entries(out@) == was + settings_of(keys, *table, i as nat),
        decreases table@.len() - i,
    {
        broadcast use vstd::std_specs::vec::axiom_vec_index_decreases;

        let mut inner: Vec<String> = copy_path(path);
        let key: String = table[i].0.clone();
        inner.push(key);
        proof {
            assert(text::texts(inner@) =~= keys.push(table@[i as int].0@));
            assert(decreases_to!(*table => table[i as int]));
        }
        flatten_value(&inner, &table[i].1, out);
        assert(entries(out@) =~= was + settings_of(keys, *table, i as nat + 1));
        i += 1;
    }
}

/// Why a configuration file is rejected. Both name the key, its parts joined
/// with dots.
#[derive(Debug, Clone, PartialEq)]
pub enum ConfigError {
    /// There is no such key.
    UnknownKey(String),
    /// The key does not take a value of this kind.
    WrongType(String),
}

/// Which setting a sequence of keys leads to.
pub enum Key {
    Overlay,
    SettleDelay,
    SessionRestoreApps,
    /// The table of all classes.
    Apps,
    /// The table of one class.
    App(Seq<char>),
    AppLaunchArgs(Seq<char>),
    AppSessionRestore(Seq<char>),
    /// Something in a table that stands where a value is wanted.
    InsideValue,
}

/// Whether a key in the table of a class takes a value.
pub open spec fn takes_value(key: Seq<char>) -> bool {
    key == "launch_args"@ || key == "session_restore"@
}

/// The class that the keys `path` lead to: they are the parts of its name, which
/// may have dots in it.
pub open spec fn class_of(path: Seq<Seq<char>>) -> Seq<char> {
    text::joined(path, "."@)
}

/// The setting that `path` leads to when its value is a table (`is_table`) or
/// not.
pub open spec fn key_of(path: Seq<Seq<char>>, is_table: bool) -> Option<Key> {
    if path == seq!["overlay"@] {
        Some(Key::Overlay)
    } else if path == seq!["settle_delay_secs"@] {
        Some(Key::SettleDelay)
    } else if path == seq!["session_restore_apps"@] {
        Some(Key::SessionRestoreApps)
    } else if path == seq!["apps"@] {
        Some(Key::Apps)
    } else if path.len() >= 3 && path[0] == "apps"@ && exists|k: int|
        2 <= k < path.len() - 1 && takes_value(#[trigger] path[k]) {
        Some(Key::InsideValue)
    } else if path.len() >= 3 && path[0] == "apps"@ && path.last() == "launch_args"@ {
        Some(Key::AppLaunchArgs(class_of(path.subrange(1, path.len() - 1))))
    } else if path.len() >= 3 && path[0] == "apps"@ && path.last() == "session_restore"@ {
        Some(Key::AppSessionRestore(class_of(path.subrange(1, path.len() - 1))))
    } else if path.len() >= 2 && path[0] == "apps"@ && is_table {
        Some(Key::App(class_of(path.skip(1))))
    } else {
        None
    }
}

/// The settings that `class` has so far.
pub open spec fn app_settings(s: Settings, class: Seq<char>) -> AppSettings {
    if s.apps.contains_key(class) {
        s.apps[class]
    } else {
        AppSettings { launch_args: Seq::empty(), session_restore: false }
    }
}

/// `s` with other settings for `class`.
pub open spec fn with_app(s: Settings, class: Seq<char>, app: AppSettings) -> Settings {
    Settings { apps: s.apps.insert(class, app), ..s }
}

/// `s` with one setting laid over it. `None` where the setting does not take a
/// value of this kind.
pub open spec fn with_setting(s: Settings, key: Key, value: EntryValue) -> Option<Settings> {
    match (key, value) {
        (Key::Overlay, EntryValue::Bool(b)) => Some(Settings { overlay: b, ..s }),
        (Key::SettleDelay, EntryValue::Integer(n)) => if n >= 0 {
            Some(Settings { settle_delay_secs: n as u64, ..s })
        } else {
            None
        },
        (Key::SessionRestoreApps, EntryValue::Texts(v)) => Some(
            Settings { session_restore_apps: v, ..s },
        ),
        (Key::Apps, EntryValue::EmptyTable) => Some(s),
        (Key::App(c), EntryValue::EmptyTable) => Some(with_app(s, c, app_settings(s, c))),
        (Key::AppLaunchArgs(c), EntryValue::Texts(v)) => Some(
            with_app(s, c, AppSettings { launch_args: v, ..app_settings(s, c) }),
        ),
        (Key::AppSessionRestore(c), EntryValue::Bool(b)) => Some(
            with_app(s, c, AppSettings { session_restore: b, ..app_settings(s, c) }),
        ),
        _ => None,
    }
}

/// A rejection, as values: whether the key is unknown, and the key.
pub struct Rejection {
    pub unknown: bool,
    pub key: Seq<char>,
}

impl View for ConfigError {
    type V = Rejection;

    open spec fn view(&self) -> Rejection {
        match self {
            ConfigError::UnknownKey(k) => Rejection { unknown: true, key: k@ },
            ConfigError::WrongType(k) => Rejection { unknown: false, key: k@ },
        }
    }
}

/// `s` with one setting of a file laid over it, or why the setting is rejected.
pub open spec fn laid_over(s: Settings, entry: Entry) -> Result<Settings, Rejection> {
    match key_of(entry.path, entry.value is EmptyTable) {
        None => Err(Rejection { unknown: true, key: class_of(entry.path) }),
        Some(key) => match with_setting(s, key, entry.value) {
            None => Err(Rejection { unknown: false, key: class_of(entry.path) }),
            Some(t) => Ok(t),
        },
    }
}

/// The configuration that a file gives: its settings laid over the defaults, one
/// after the other, or why the first bad one among them is rejected.
pub open spec fn configured(file: Seq<Entry>) -> Result<Settings, Rejection>
    decreases file.len(),
{
    if file.len() == 0 {
        Ok(default_settings())
    } else {
        match configured(file.drop_last()) {
            Err(e) => Err(e),
            Ok(s) => laid_over(s, file.last()),
        }
    }
}

impl Default for Config {
    fn default() -> (r: Self)
        ensures
            r@ == default_settings(),
    {
        let r = Config {
            overlay: default_true(),
            settle_delay_secs: default_settle_delay(),
            session_restore_apps: Vec::new(),
            apps: ClassMap::new(),
        };
        proof {
            assert(r@.session_restore_apps =~= default_settings().session_restore_apps);
            assert(r@.apps =~= default_settings().apps);
        }
        r
    }
}

impl Config {
    /// The configuration that a file gives, or the defaults where there is no
    /// file. A file with an unknown key is rejected, so that typos are noticed.
    pub fn load(file: Option<Vec<(String, FileValue)>>) -> (r: Result<Self, ConfigError>)
        ensures
            match file {
                None => r matches Ok(c) && c@ == default_settings(),
                Some(table) => {
                    let settings = settings_of(Seq::empty(), table, table@.len());
                    match r {
                        Ok(c) => configured(settings) == Ok::<Settings, Rejection>(c@),
                        Err(e) => configured(settings) == Err::<Settings, Rejection>(e@),
                    }
                },
            },
    {
        match file {
            None => Ok(Config::default()),
            Some(table) => {
                let mut settings: Vec<Setting> = Vec::new();
                let path: Vec<String> = Vec::new();
                assert(text::texts(path@) =~= Seq::<Seq<char>>::empty());
                let ghost none = entries(settings@);
                flatten(&path, &table, &mut settings);
                assert(none + settings_of(Seq::empty(), table, table@.len()) =~= settings_of(
                    Seq::empty(),
                    table,
                    table@.len(),
                ));
                Self::read(&settings)
            },
        }
    }

    fn read(settings: &Vec<Setting>) -> (r: Result<Self, ConfigError>)
        ensures
            match r {
                Ok(c) => configured(entries(settings@)) == Ok::<Settings, Rejection>(c@),
                Err(e) => configured(entries(settings@)) == Err::<Settings, Rejection>(e@),
            },
    {
        let ghost all = entries(settings@);
        let mut cfg = Config::default();
        let mut i: usize = 0;
        while i < settings.len()
            invariant
                0 <= i <= settings@.len(),
                all == entries(settings@),
                configured(all.take(i as int)) == Ok::<Settings, Rejection>(cfg@),
            decreases settings@.len() - i,
        {
            proof {
                assert(all.take(i as int + 1).drop_last() =~= all.take(i as int));
                assert(all.take(i as int + 1).last() == settings@[i as int]@);
            }
            match cfg.lay_over(&settings[i]) {
                Ok(()) => {},
                Err(e) => {
                    proof {
                        lemma_first_error(all, i as int + 1);
                    }
                    return Err(e);
                },
            }
            i += 1;
        }
        assert(all.take(all.len() as int) =~= all);
        Ok(cfg)
    }

    /// Lays one setting of a file over the configuration.
    pub fn lay_over(&mut self, setting: &Setting) -> (r: Result<(), ConfigError>)
        ensures
            match r {
                Ok(()) => laid_over(old(self)@, setting@) == Ok::<Settings, Rejection>(
                    final(self)@,
                ),
                Err(e) => {
                    &&& laid_over(old(self)@, setting@) == Err::<Settings, Rejection>(e@)
                    &&& final(self)@ == old(self)@
                },
            },
    {
        let n: usize = setting.path.len();
        let ghost path = text::texts(setting.path@);
        let is_table: bool = match setting.value {
            SettingValue::EmptyTable => true,
            _ => false,
        };
        if n == 1 {
            assert(path =~= seq![path[0]]);
            let key: &str = setting.path[0].as_str();
            if text::same(key, "overlay") {
                if let SettingValue::Bool(b) = &setting.value {
                    self.overlay = *b;
                    return Ok(());
                }
                return Err(wrong_type(&setting.path));
            }
            if text::same(key, "settle_delay_secs") {
                if let SettingValue::Integer(i) = &setting.value {
                    if *i >= 0 {
                        self.settle_delay_secs = *i as u64;
                        return Ok(());
                    }
                }
                return Err(wrong_type(&setting.path));
            }
            if text::same(key, "session_restore_apps") {
                if let SettingValue::Texts(v) = &setting.value {
                    self.session_restore_apps = v.clone();
                    assert(self.session_restore_apps@ =~= v@);
                    return Ok(());
                }
                return Err(wrong_type(&setting.path));
            }
            if text::same(key, "apps") {
                if is_table {
                    return Ok(());
                }
                return Err(wrong_type(&setting.path));
            }
            return Err(unknown_key(&setting.path));
        }
        if n >= 2 && text::same(setting.path[0].as_str(), "apps") {
            if n >= 3 && is_inside_value(&setting.path) {
                return Err(wrong_type(&setting.path));
            }
            if n >= 3 && text::same(setting.path[n - 1].as_str(), "launch_args") {
                if let SettingValue::Texts(v) = &setting.value {
                    let class: String = dotted(&setting.path, 1, n - 1);
                    let mut app: AppConfig = self.app_of(class.as_str());
                    app.launch_args = v.clone();
                    assert(app.launch_args@ =~= v@);
                    self.put_app(class, app);
                    return Ok(());
                }
                return Err(wrong_type(&setting.path));
            }
            if n >= 3 && text::same(setting.path[n - 1].as_str(), "session_restore") {
                if let SettingValue::Bool(b) = &setting.value {
                    let class: String = dotted(&setting.path, 1, n - 1);
                    let mut app: AppConfig = self.app_of(class.as_str());
                    app.session_restore = *b;
                    self.put_app(class, app);
                    return Ok(());
                }
                return Err(wrong_type(&setting.path));
            }
            if is_table {
                let class: String = dotted(&setting.path, 1, n);
                assert(path.subrange(1, n as int) =~= path.skip(1));
                let app: AppConfig = self.app_of(class.as_str());
                self.put_app(class, app);
                return Ok(());
            }
        }
        Err(unknown_key(&setting.path))
    }

    /// A copy of the settings that `class` has so far.
    fn app_of(&self, class: &str) -> (r: AppConfig)
        ensures
            r@ == app_settings(self@, class@),
    {
        match self.apps.get(class) {
            Some(app) => {
                let launch_args: Vec<String> = app.launch_args.clone();
                assert(launch_args@ =~= app.launch_args@);
                AppConfig { launch_args, session_restore: app.session_restore }
            },
            None => {
                let r = AppConfig { launch_args: Vec::new(), session_restore: false };
                assert(r@.launch_args =~= Seq::<Seq<char>>::empty());
                r
            },
        }
    }

    /// Gives `class` the settings `app`.
    fn put_app(&mut self, class: String, app: AppConfig)
        ensures
            final(self)@ == with_app(old(self)@, class@, app@),
    {
        self.apps.insert(class, app);
        assert(self@.apps =~= old(self)@.apps.insert(class@, app@));
    }

    /// The arguments to launch `class` with: those of the configuration where it
    /// has some, else those of the session.
    pub fn launch_args<'a>(&'a self, class: &str, fallback: Option<&'a Vec<String>>) -> (r:
        &'a [String])
        ensures
            text::texts(r@) == launch_args_for(
                self@,
                class@,
                match fallback {
                    Some(v) => Some(text::texts(v@)),
                    None => None,
                },
            ),
    {
        if let Some(app) = self.apps.get(class) {
            if app.launch_args.len() > 0 {
                return app.launch_args.as_slice();
            }
        }
        match fallback {
            Some(v) => v.as_slice(),
            None => {
                let r: &'a [String] = &[];
                assert(text::texts(r@) =~= Seq::<Seq<char>>::empty());
                r
            },
        }
    }

    /// Whether `class` restores its own session: by the built-in list, by the
    /// configuration, or by what the user gave on the command line.
    pub fn is_session_restore_app(
        &self,
        class: &str,
        builtin: &[&str],
        cli_extra: &[String],
    ) -> (r: bool)
        ensures
            r == restores_itself(self@, class@, words(builtin@), text::texts(cli_extra@)),
    {
        let mut i: usize = 0;
        while i < builtin.len()
            invariant
                0 <= i <= builtin@.len(),
                forall|j: int| 0 <= j < i ==> words(builtin@)[j] != class@,
            decreases builtin@.len() - i,
        {
            if text::same(builtin[i], class) {
                assert(words(builtin@)[i as int] == class@);
                return true;
            }
            i += 1;
        }
        if text::contains(self.session_restore_apps.as_slice(), class) {
            return true;
        }
        if let Some(app) = self.apps.get(class) {
            if app.session_restore {
                return true;
            }
        }
        text::contains(cli_extra, class)
    }
}

/// The texts of a sequence of string slices.
pub open spec fn words(v: Seq<&str>) -> Seq<Seq<char>> {
    v.map_values(|s: &str| s@)
}

/// The arguments to launch `class` with: those of the configuration where it has
/// some, else `fallback`, else none.
pub open spec fn launch_args_for(
    s: Settings,
    class: Seq<char>,
    fallback: Option<Seq<Seq<char>>>,
) -> Seq<Seq<char>> {
    if s.apps.contains_key(class) && s.apps[class].launch_args.len() > 0 {
        s.apps[class].launch_args
    } else {
        match fallback {
            Some(args) => args,
            None => Seq::empty(),
        }
    }
}

/// Whether `class` restores its own session.
pub open spec fn restores_itself(
    s: Settings,
    class: Seq<char>,
    builtin: Seq<Seq<char>>,
    extra: Seq<Seq<char>>,
) -> bool {
    ||| builtin.contains(class)
    ||| s.session_restore_apps.contains(class)
    ||| s.apps.contains_key(class) && s.apps[class].session_restore
    ||| extra.contains(class)
}

/// The keys `path[from..to]` joined with dots.
fn dotted(path: &Vec<String>, from: usize, to: usize) -> (r: String)
    requires
        from <= to <= path@.len(),
    ensures
        r@ == class_of(text::texts(path@).subrange(from as int, to as int)),
{
    let mut parts: Vec<String> = Vec::new();
    let mut i: usize = from;
    while i < to
        invariant
            from <= i <= to <= path@.len(),
            text::texts(parts@) == text::texts(path@).subrange(from as int, i as int),
        decreases to - i,
    {
        let ghost was = parts@;
        let part: String = path[i].clone();
        parts.push(part);
        i += 1;
        assert(text::texts(parts@) =~= text::texts(was).push(part@));
        assert(text::texts(parts@) =~= text::texts(path@).subrange(from as int, i as int));
    }
    text::join(&parts, ".")
}

fn is_inside_value(path: &Vec<String>) -> (r: bool)
    requires
        path@.len() >= 3,
    ensures
        r == exists|k: int|
            2 <= k < path@.len() - 1 && takes_value(#[trigger] text::texts(path@)[k]),
{
    let ghost keys = text::texts(path@);
    let mut k: usize = 2;
    while k < path.len() - 1
        invariant
            2 <= k <= path@.len() - 1,
            keys == text::texts(path@),
            forall|j: int| 2 <= j < k ==> !takes_value(#[trigger] keys[j]),
        decreases path@.len() - k,
    {
        assert(keys[k as int] == path@[k as int]@);
        let key: &str = path[k].as_str();
        if text::same(key, "launch_args") || text::same(key, "session_restore") {
            assert(takes_value(keys[k as int]));
            return true;
        }
        k += 1;
    }
    false
}

fn unknown_key(path: &Vec<String>) -> (r: ConfigError)
    ensures
        r@ == (Rejection { unknown: true, key: class_of(text::texts(path@)) }),
{
    assert(text::texts(path@).subrange(0, path@.len() as int) =~= text::texts(path@));
    ConfigError::UnknownKey(dotted(path, 0, path.len()))
}

fn wrong_type(path: &Vec<String>) -> (r: ConfigError)
    ensures
        r@ == (Rejection { unknown: false, key: class_of(text::texts(path@)) }),
{
    assert(text::texts(path@).subrange(0, path@.len() as int) =~= text::texts(path@));
    ConfigError::WrongType(dotted(path, 0, path.len()))
}

proof fn lemma_first_error(file: Seq<Entry>, n: int)
    requires
        0 <= n <= file.len(),
        configured(file.take(n)) is Err,
    ensures
        configured(file) == configured(file.take(n)),
    decreases file.len() - n,
{
    if n < file.len() {
        assert(file.take(n + 1).drop_last() =~= file.take(n));
        lemma_first_error(file, n + 1);
    } else {
        assert(file.take(n) =~= file);
    }
}

// ------------------------------------------------------------------------- laws

/// A file with an unknown key is rejected, whatever else it holds.
pub proof fn law_unknown_keys_are_rejected(file: Seq<Entry>, i: int)
    requires
        0 <= i < file.len(),
        key_of(file[i].path, file[i].value is EmptyTable) is None,
    ensures
        configured(file) is Err,
    decreases file.len(),
{
    if i < file.len() - 1 {
        law_unknown_keys_are_rejected(file.drop_last(), i);
    }
}

/// A table, empty or not, where the settings of a class take a value is rejected.
pub proof fn law_tables_are_no_values(
    s: Settings,
    path: Seq<Seq<char>>,
    k: int,
    value: EntryValue,
)
    requires
        path[0] == "apps"@,
        2 <= k < path.len(),
        takes_value(path[k]),
        k < path.len() - 1 || value is EmptyTable,
    ensures
        laid_over(s, Entry { path, value }) == Err::<Settings, Rejection>(
            Rejection { unknown: false, key: class_of(path) },
        ),
{
    assert(path.len() >= 3);
}

/// The dots in a class name may be written as levels of nested tables: the
/// tables `apps` `a` `b` and the table `apps` `a.b` are those of one class.
pub proof fn law_class_names_may_have_dots(parts: Seq<Seq<char>>)
    requires
        parts.len() > 0,
        forall|k: int| 1 <= k < parts.len() ==> !takes_value(#[trigger] parts[k]),
    ensures
        class_of(parts) == class_of(seq![class_of(parts)]),
        key_of(seq!["apps"@] + parts, true) == key_of(seq!["apps"@, class_of(parts)], true),
        key_of(seq!["apps"@] + parts + seq!["launch_args"@], false) == key_of(
            seq!["apps"@, class_of(parts), "launch_args"@],
            false,
        ),
        key_of(seq!["apps"@] + parts + seq!["session_restore"@], false) == key_of(
            seq!["apps"@, class_of(parts), "session_restore"@],
            false,
        ),
{
    let c = class_of(parts);
    let one = seq!["apps"@, c];
    let all = seq!["apps"@] + parts;
    assert(all.skip(1) =~= parts);
    assert(one.skip(1) =~= seq![c]);
    assert(all != seq!["apps"@]) by {
        assert(all.len() >= 2);
    }
    let a1 = all + seq!["launch_args"@];
    let a2 = seq!["apps"@, c, "launch_args"@];
    assert(a1.subrange(1, a1.len() - 1) =~= parts);
    assert(a2.subrange(1, a2.len() - 1) =~= seq![c]);
    let s1 = all + seq!["session_restore"@];
    let s2 = seq!["apps"@, c, "session_restore"@];
    assert(s1.subrange(1, s1.len() - 1) =~= parts);
    assert(s2.subrange(1, s2.len() - 1) =~= seq![c]);
    assert forall|k: int| 2 <= k < all.len() implies !takes_value(#[trigger] all[k]) by {
        assert(all[k] == parts[k - 1]);
    }
    assert forall|k: int| 2 <= k < a1.len() - 1 implies !takes_value(#[trigger] a1[k]) by {
        assert(a1[k] == all[k]);
    }
    assert forall|k: int| 2 <= k < s1.len() - 1 implies !takes_value(#[trigger] s1[k]) by {
        assert(s1[k] == all[k]);
    }
}

/// Settings of one class leave what another class is launched with alone.
pub proof fn law_app_settings_are_separate(
    s: Settings,
    class: Seq<char>,
    app: AppSettings,
    other: Seq<char>,
    fallback: Option<Seq<Seq<char>>>,
    builtin: Seq<Seq<char>>,
    extra: Seq<Seq<char>>,
)
    requires
        other != class,
    ensures
        launch_args_for(with_app(s, class, app), other, fallback) == launch_args_for(
            s,
            other,
            fallback,
        ),
        restores_itself(with_app(s, class, app), other, builtin, extra) == restores_itself(
            s,
            other,
            builtin,
            extra,
        ),
{
}

/// Each setting sets what it is called after, and nothing else.
pub proof fn law_settings_set_their_own(
    s: Settings,
    class: Seq<char>,
    b: bool,
    n: i64,
    list: Seq<Seq<char>>,
)
    requires
        n >= 0,
    ensures
        laid_over(s, Entry { path: seq!["overlay"@], value: EntryValue::Bool(b) }) == Ok::<
            Settings,
            Rejection,
        >(Settings { overlay: b, ..s }),
        laid_over(s, Entry { path: seq!["settle_delay_secs"@], value: EntryValue::Integer(n) })
            == Ok::<Settings, Rejection>(Settings { settle_delay_secs: n as u64, ..s }),
        laid_over(s, Entry { path: seq!["session_restore_apps"@], value: EntryValue::Texts(list) })
            == Ok::<Settings, Rejection>(Settings { session_restore_apps: list, ..s }),
        ({
            let with_args = laid_over(
                s,
                Entry {
                    path: seq!["apps"@, class, "launch_args"@],
                    value: EntryValue::Texts(list),
                },
            );
            &&& with_args matches Ok(t) && t.apps.dom() == s.apps.dom().insert(class)
                && t.apps[class].launch_args == list && t.apps[class].session_restore == (
            s.apps.contains_key(class) && s.apps[class].session_restore) && t.overlay == s.overlay
                && t.settle_delay_secs == s.settle_delay_secs && t.session_restore_apps
                == s.session_restore_apps
        }),
        ({
            let with_flag = laid_over(
                s,
                Entry {
                    path: seq!["apps"@, class, "session_restore"@],
                    value: EntryValue::Bool(b),
                },
            );
            &&& with_flag matches Ok(t) && t.apps.dom() == s.apps.dom().insert(class)
                && t.apps[class].session_restore == b && t.apps[class].launch_args == (
            if s.apps.contains_key(class) {
                s.apps[class].launch_args
            } else {
                Seq::empty()
            }) && t.overlay == s.overlay && t.settle_delay_secs == s.settle_delay_secs
                && t.session_restore_apps == s.session_restore_apps
        }),
{
    lemma_keys_differ();
    let o = seq!["overlay"@];
    let d = seq!["settle_delay_secs"@];
    let r = seq!["session_restore_apps"@];
    assert(o[0] == "overlay"@ && d[0] == "settle_delay_secs"@ && r[0] == "session_restore_apps"@);
    assert(d != o && r != o && r != d);
    let args = seq!["apps"@, class, "launch_args"@];
    let flag = seq!["apps"@, class, "session_restore"@];
    assert(args.len() == 3 && flag.len() == 3);
    assert(args.subrange(1, 2) =~= seq![class]);
    assert(flag.subrange(1, 2) =~= seq![class]);
    assert(args.last() == "launch_args"@ && flag.last() == "session_restore"@);
    assert(s.apps.insert(class, app_settings(s, class)).dom() =~= s.apps.dom().insert(class));
}

proof fn lemma_keys_differ()
    ensures
        "overlay"@ != "settle_delay_secs"@,
        "overlay"@ != "session_restore_apps"@,
        "overlay"@ != "apps"@,
        "settle_delay_secs"@ != "session_restore_apps"@,
        "settle_delay_secs"@ != "apps"@,
        "session_restore_apps"@ != "apps"@,
        "launch_args"@ != "session_restore"@,
{
    reveal_strlit("overlay");
    reveal_strlit("settle_delay_secs");
    reveal_strlit("session_restore_apps");
    reveal_strlit("apps");
    reveal_strlit("launch_args");
    reveal_strlit("session_restore");
    assert("overlay"@[0] == 'o' && "apps"@[0] == 'a');
    assert("settle_delay_secs"@[0] == 's' && "session_restore_apps"@[0] == 's');
    assert("settle_delay_secs"@[2] == 't' && "session_restore_apps"@[2] == 's');
    assert("launch_args"@[0] == 'l' && "session_restore"@[0] == 's');
}

/// Where nothing is configured the overlay is shown, four seconds are waited, and no
/// app has settings of its own.
pub proof fn law_defaults_are_as_documented()
    ensures
        default_settings().overlay,
        default_settings().settle_delay_secs == 4,
        default_settings().session_restore_apps.len() == 0,
        default_settings().apps.dom() == Set::<Seq<char>>::empty(),
        configured(Seq::empty()) == Ok::<Settings, Rejection>(default_settings()),
{
    assert(default_settings().apps.dom() =~= Set::<Seq<char>>::empty());
}

/// Settings take effect in their order, and the first bad one decides what is wrong.
pub proof fn law_settings_take_effect_in_order(file: Seq<Entry>, entry: Entry)
    ensures
        configured(file) matches Err(e) ==> configured(file.push(entry)) == Err::<
            Settings,
            Rejection,
        >(e),
        configured(file) matches Ok(s) ==> configured(file.push(entry)) == laid_over(s, entry),
{
    assert(file.push(entry).drop_last() =~= file);
}

/// Arguments in the configuration replace those of the session, and where it has
/// none those of the session are used as they are.
pub proof fn law_configured_arguments_come_first(
    s: Settings,
    class: Seq<char>,
    fallback: Option<Seq<Seq<char>>>,
)
    ensures
        ({
            let args = launch_args_for(s, class, fallback);
            let own = s.apps.contains_key(class) && s.apps[class].launch_args.len() > 0;
            &&& own ==> args == s.apps[class].launch_args
            &&& !own && fallback is Some ==> args == fallback->0
            &&& !own && fallback is None ==> args.len() == 0
        }),
{
}

/// An app restores itself where one of the four sources says so, and only there.
pub proof fn law_any_source_is_enough(
    s: Settings,
    class: Seq<char>,
    builtin: Seq<Seq<char>>,
    extra: Seq<Seq<char>>,
)
    ensures
        builtin.contains(class) ==> restores_itself(s, class, builtin, extra),
        extra.contains(class) ==> restores_itself(s, class, builtin, extra),
        s.session_restore_apps.contains(class) ==> restores_itself(s, class, builtin, extra),
        s.apps.contains_key(class) && s.apps[class].session_restore ==> restores_itself(
            s,
            class,
            builtin,
            extra,
        ),
        !builtin.contains(class) && !extra.contains(class) && !s.session_restore_apps.contains(class)
            && !(s.apps.contains_key(class) && s.apps[class].session_restore) ==> !restores_itself(
            s,
            class,
            builtin,
            extra,
        ),
{
}

/// A table gives the settings of its keys one after another: a value gives one
/// setting, at the keys that lead to it, and a table with keys gives those of its
/// own keys.
pub proof fn law_tables_give_their_settings(
    path: Seq<Seq<char>>,
    table: Vec<(String, FileValue)>,
    n: nat,
)
    requires
        n < table@.len(),
    ensures
        ({
            let before = settings_of(path, table, n);
            let now = settings_of(path, table, n + 1);
            let keys = path.push(table@[n as int].0@);
            &&& settings_of(path, table, 0).len() == 0
            &&& match table@[n as int].1 {
                FileValue::Bool(b) => now == before.push(
                    Entry { path: keys, value: EntryValue::Bool(b) },
                ),
                FileValue::Integer(i) => now == before.push(
                    Entry { path: keys, value: EntryValue::Integer(i) },
                ),
                FileValue::Table(t) => if t@.len() == 0 {
                    now == before.push(Entry { path: keys, value: EntryValue::EmptyTable })
                } else {
                    now == before + settings_of(keys, t, t@.len())
                },
                FileValue::List(_) => now.len() == before.len() + 1 && now.last().path == keys
                    && now.drop_last() == before,
                _ => now == before.push(Entry { path: keys, value: EntryValue::Other }),
            }
        }),
{
    let before = settings_of(path, table, n);
    let now = settings_of(path, table, n + 1);
    let keys = path.push(table@[n as int].0@);
    let value = table@[n as int].1;
    assert(now == before + settings_in(keys, value));
    assert(before + seq![Entry { path: keys, value: leaf(value) }] =~= before.push(
        Entry { path: keys, value: leaf(value) },
    ));
    assert(before.push(Entry { path: keys, value: leaf(value) }).drop_last() =~= before);
}

/// A list of texts gives the texts in their order; any other list is no such list.
pub proof fn law_lists_hold_texts(items: Seq<FileValue>)
    ensures
        list_texts(items) matches Some(v) ==> v.len() == items.len() && forall|i: int|
            0 <= i < items.len() ==> ((#[trigger] items[i]) matches FileValue::Text(t) && t@
                == v[i]),
        (forall|i: int| 0 <= i < items.len() ==> (#[trigger] items[i]) is Text) ==> list_texts(
            items,
        ) is Some,
    decreases items.len(),
{
    if items.len() > 0 {
        let front = items.drop_last();
        law_lists_hold_texts(front);
        if forall|i: int| 0 <= i < items.len() ==> (#[trigger] items[i]) is Text {
            assert forall|i: int| 0 <= i < front.len() implies (#[trigger] front[i]) is Text by {
                assert(items[i] is Text);
            }
            assert(items[items.len() - 1] is Text);
        }
        if let Some(v) = list_texts(items) {
            assert forall|i: int| 0 <= i < items.len() implies ((
            #[trigger] items[i]) matches FileValue::Text(t) && t@ == v[i]) by {
                if i < front.len() {
                    assert(front[i] == items[i]);
                }
            }
        }
    }
}

/// An empty table for a class gives it settings of its own, without arguments and not
/// restoring itself, and leaves settings that it has.
pub proof fn law_empty_tables_name_their_class(s: Settings, class: Seq<char>)
    ensures
        with_setting(s, Key::App(class), EntryValue::EmptyTable) matches Some(t)
            && t.apps.contains_key(class) && (s.apps.contains_key(class) ==> t.apps[class]
            == s.apps[class]) && (!s.apps.contains_key(class) ==> t.apps[class].launch_args.len()
            == 0 && !t.apps[class].session_restore),
        with_setting(s, Key::Apps, EntryValue::EmptyTable) == Some(s),
{
}

} // verus!
