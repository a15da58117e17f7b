//! The fully-resolved config and its precedence chain: `CLI flags > env vars > project
//! config > global config > built-in defaults`.
use vstd::prelude::*;

use crate::text::{chars_of, decimal, decimal_chars_u128, extend_chars, push_str, string_of};

verus! {

/// The fully-resolved config: every field concrete, after precedence is applied.
/// `intent`/`session_memory`/`session_ttl_minutes` are forward-compatible schema only.
#[derive(Debug, Clone, PartialEq)]
pub struct Settings {
    pub budget: usize,
    pub intent: String,
    pub session_memory: bool,
    pub session_ttl_minutes: u32,
}

/// The content of a `Settings`, as plain values.
pub struct SettingsView {
    pub budget: usize,
    pub intent: Seq<char>,
    pub session_memory: bool,
    pub session_ttl_minutes: u32,
}

impl View for Settings {
    type V = SettingsView;

    open spec fn view(&self) -> SettingsView {
        SettingsView {
            budget: self.budget,
            intent: self.intent@,
            session_memory: self.session_memory,
            session_ttl_minutes: self.session_ttl_minutes,
        }
    }
}

/// The built-in defaults: a 2000-token budget, `auto` intent, no session memory, a
/// two-hour session lifetime.
pub open spec fn default_settings() -> SettingsView {
    SettingsView { budget: 2000, intent: "auto"@, session_memory: false, session_ttl_minutes: 120 }
}

impl Settings {
    pub fn defaults() -> (r: Settings)
        ensures
            r@ == default_settings(),
    {
        Settings {
            budget: 2000,
            intent: "auto".to_string(),
            session_memory: false,
            session_ttl_minutes: 120,
        }
    }
}

/// One layer of the precedence chain, every field optional: `None` means "this layer
/// didn't set it," not "set it to a default." Also the seam env vars come in through --
/// the program builds one from the environment, tests construct it by hand.
#[derive(Debug, Clone, PartialEq)]
pub struct PartialSettings {
    pub budget: Option<usize>,
    pub intent: Option<String>,
    pub session_memory: Option<bool>,
    pub session_ttl_minutes: Option<u32>,
}

/// The content of a `PartialSettings`, as plain values.
pub struct PartialView {
    pub budget: Option<usize>,
    pub intent: Option<Seq<char>>,
    pub session_memory: Option<bool>,
    pub session_ttl_minutes: Option<u32>,
}

pub open spec fn opt_text(s: Option<String>) -> Option<Seq<char>> {
    match s {
        Some(s) => Some(s@),
        None => None,
    }
}

impl View for PartialSettings {
    type V = PartialView;

    open spec fn view(&self) -> PartialView {
        PartialView {
            budget: self.budget,
            intent: opt_text(self.intent),
            session_memory: self.session_memory,
            session_ttl_minutes: self.session_ttl_minutes,
        }
    }
}

/// A layer that sets nothing.
pub open spec fn empty_layer() -> PartialView {
    PartialView { budget: None, intent: None, session_memory: None, session_ttl_minutes: None }
}

impl Default for PartialSettings {
    fn default() -> (r: PartialSettings)
        ensures
            r@ == empty_layer(),
    {
        PartialSettings { budget: None, intent: None, session_memory: None, session_ttl_minutes: None }
    }
}

pub open spec fn or_else<T>(over: Option<T>, base: Option<T>) -> Option<T> {
    match over {
        Some(v) => Some(v),
        None => base,
    }
}

/// `over` laid on top of `base`: each field from `over` where it sets one, else from `base`.
pub open spec fn merge_spec(base: PartialView, over: PartialView) -> PartialView {
    PartialView {
        budget: or_else(over.budget, base.budget),
        intent: or_else(over.intent, base.intent),
        session_memory: or_else(over.session_memory, base.session_memory),
        session_ttl_minutes: or_else(over.session_ttl_minutes, base.session_ttl_minutes),
    }
}

fn merge(base: PartialSettings, over: PartialSettings) -> (r: PartialSettings)
    ensures
        r@ == merge_spec(base@, over@),
{
    PartialSettings {
        budget: match over.budget { Some(v) => Some(v), None => base.budget },
        intent: match over.intent { Some(v) => Some(v), None => base.intent },
        session_memory: match over.session_memory { Some(v) => Some(v), None => base.session_memory },
        session_ttl_minutes: match over.session_ttl_minutes { Some(v) => Some(v), None => base.session_ttl_minutes },
    }
}

/// `layer` with every unset field taken from the built-in defaults.
pub open spec fn complete(layer: PartialView) -> SettingsView {
    let d = default_settings();
    SettingsView {
        budget: match layer.budget { Some(v) => v, None => d.budget },
        intent: match layer.intent { Some(v) => v, None => d.intent },
        session_memory: match layer.session_memory { Some(v) => v, None => d.session_memory },
        session_ttl_minutes: match layer.session_ttl_minutes { Some(v) => v, None => d.session_ttl_minutes },
    }
}

/// The values a TOML config document gives the settings keys, as read by the `toml`
/// crate: each key's value when present with the expected type, `None` otherwise.
pub struct TomlFields {
    pub budget: Option<i64>,
    pub intent: Option<String>,
    pub session_memory: Option<bool>,
    pub session_ttl_minutes: Option<i64>,
}

/// The content of a `TomlFields`, as plain values.
pub struct TomlFieldsView {
    pub budget: Option<i64>,
    pub intent: Option<Seq<char>>,
    pub session_memory: Option<bool>,
    pub session_ttl_minutes: Option<i64>,
}

impl View for TomlFields {
    type V = TomlFieldsView;

    open spec fn view(&self) -> TomlFieldsView {
        TomlFieldsView {
            budget: self.budget,
            intent: opt_text(self.intent),
            session_memory: self.session_memory,
            session_ttl_minutes: self.session_ttl_minutes,
        }
    }
}

/// A top-level value of a TOML document, as far as the settings read one: an integer, a
/// string, a boolean, or anything else.
pub enum TomlScalar {
    Integer(i64),
    Text(String),
    Boolean(bool),
    Other,
}

/// The content of a `TomlScalar`, as plain values.
pub enum ScalarView {
    Integer(i64),
    Text(Seq<char>),
    Boolean(bool),
    Other,
}

impl View for TomlScalar {
    type V = ScalarView;

    open spec fn view(&self) -> ScalarView {
        match self {
            TomlScalar::Integer(n) => ScalarView::Integer(*n),
            TomlScalar::Text(t) => ScalarView::Text(t@),
            TomlScalar::Boolean(b) => ScalarView::Boolean(*b),
            TomlScalar::Other => ScalarView::Other,
        }
    }
}

pub open spec fn entry_views(es: Seq<(String, TomlScalar)>) -> Seq<(Seq<char>, ScalarView)> {
    es.map_values(|e: (String, TomlScalar)| (e.0@, e.1@))
}

/// The top-level entries of the TOML document `text` as the `toml` crate reads it (key and
/// value, in the order its table keeps them), or the parse error's description.
pub uninterp spec fn toml_entries(text: Seq<char>) -> Result<Seq<(Seq<char>, ScalarView)>, Seq<char>>;

/// `toml::from_str::<toml::Table>` on `text`, each top-level entry converted as it stands
/// (a value other than an integer, a string or a boolean becomes `Other`), or the error's
/// `Display` text. The contract only names the outcome: it is a function of `text` alone.
#[verifier::external_body]
fn read_toml_entries(text: &str) -> (r: Result<Vec<(String, TomlScalar)>, String>)
    ensures
        match r {
            Ok(es) => toml_entries(text@) == Ok::<Seq<(Seq<char>, ScalarView)>, Seq<char>>(entry_views(es@)),
            Err(e) => toml_entries(text@) == Err::<Seq<(Seq<char>, ScalarView)>, Seq<char>>(e@),
        },
{
    match toml::from_str::<toml::Table>(text) {
        Ok(table) => Ok(table.into_iter().map(|(key, value)| (key, match value {
            toml::Value::Integer(n) => TomlScalar::Integer(n),
            toml::Value::String(t) => TomlScalar::Text(t),
            toml::Value::Boolean(b) => TomlScalar::Boolean(b),
            _ => TomlScalar::Other,
        })).collect()),
        Err(e) => Err(e.to_string()),
    }
}

/// The value of the first entry of `es` under `key`, if any.
pub open spec fn lookup(es: Seq<(Seq<char>, ScalarView)>, key: Seq<char>) -> Option<ScalarView>
    decreases es.len(),
{
    if es.len() == 0 {
        None
    } else if es[0].0 == key {
        Some(es[0].1)
    } else {
        lookup(es.drop_first(), key)
    }
}

pub open spec fn integer_at(es: Seq<(Seq<char>, ScalarView)>, key: Seq<char>) -> Option<i64> {
    match lookup(es, key) {
        Some(ScalarView::Integer(n)) => Some(n),
        _ => None,
    }
}

pub open spec fn text_at(es: Seq<(Seq<char>, ScalarView)>, key: Seq<char>) -> Option<Seq<char>> {
    match lookup(es, key) {
        Some(ScalarView::Text(t)) => Some(t),
        _ => None,
    }
}

pub open spec fn boolean_at(es: Seq<(Seq<char>, ScalarView)>, key: Seq<char>) -> Option<bool> {
    match lookup(es, key) {
        Some(ScalarView::Boolean(b)) => Some(b),
        _ => None,
    }
}

/// The values the entries `es` give the settings keys: each key's value when present with
/// the expected type, `None` otherwise.
pub open spec fn fields_from_entries(es: Seq<(Seq<char>, ScalarView)>) -> TomlFieldsView {
    TomlFieldsView {
        budget: integer_at(es, "budget"@),
        intent: text_at(es, "intent"@),
        session_memory: boolean_at(es, "session_memory"@),
        session_ttl_minutes: integer_at(es, "session_ttl_minutes"@),
    }
}

/// What the `toml` crate reads out of the document `text` for the settings keys, or the
/// parse error's description.
pub open spec fn toml_fields(text: Seq<char>) -> Result<TomlFieldsView, Seq<char>> {
    match toml_entries(text) {
        Ok(es) => Ok(fields_from_entries(es)),
        Err(e) => Err(e),
    }
}

/// The index of the first entry of `es` under `key`, if any.
fn find_key(es: &[(String, TomlScalar)], key: &str) -> (r: Option<usize>)
    ensures
        match r {
            Some(i) => i < es.len() && lookup(entry_views(es@), key@) == Some(es@[i as int].1@),
            None => lookup(entry_views(es@), key@) is None,
        },
{
    let k = chars_of(key);
    let mut i: usize = 0;
    assert(entry_views(es@).skip(0) == entry_views(es@));
    while i < es.len()
        invariant
            i <= es.len(),
            k@ == key@,
            lookup(entry_views(es@), key@) == lookup(entry_views(es@).skip(i as int), key@),
        decreases es.len() - i,
    {
        let ghost rest = entry_views(es@).skip(i as int);
        assert(rest[0] == (es@[i as int].0@, es@[i as int].1@));
        if crate::text::eq_chars(&chars_of(es[i].0.as_str()), &k) {
            return Some(i);
        }
        assert(rest.drop_first() == entry_views(es@).skip(i + 1));
        i += 1;
    }
    None
}

/// The values the entries `es` give the settings keys (see [`fields_from_entries`]).
fn fields_of(es: &[(String, TomlScalar)]) -> (r: TomlFields)
    ensures
        r@ == fields_from_entries(entry_views(es@)),
{
    proof {
        reveal_strlit("budget");
        reveal_strlit("intent");
        reveal_strlit("session_memory");
        reveal_strlit("session_ttl_minutes");
    }
    let budget = match find_key(es, "budget") {
        Some(i) => match &es[i].1 {
            TomlScalar::Integer(n) => Some(*n),
            _ => None,
        },
        None => None,
    };
    let intent = match find_key(es, "intent") {
        Some(i) => match &es[i].1 {
            TomlScalar::Text(t) => Some(t.clone()),
            _ => None,
        },
        None => None,
    };
    let session_memory = match find_key(es, "session_memory") {
        Some(i) => match &es[i].1 {
            TomlScalar::Boolean(b) => Some(*b),
            _ => None,
        },
        None => None,
    };
    let session_ttl_minutes = match find_key(es, "session_ttl_minutes") {
        Some(i) => match &es[i].1 {
            TomlScalar::Integer(n) => Some(*n),
            _ => None,
        },
        None => None,
    };
    TomlFields { budget, intent, session_memory, session_ttl_minutes }
}

/// The values the TOML document `text` gives the settings keys, or the parse error.
fn read_toml_fields(text: &str) -> (r: Result<TomlFields, String>)
    ensures
        match r {
            Ok(f) => toml_fields(text@) == Ok::<TomlFieldsView, Seq<char>>(f@),
            Err(e) => toml_fields(text@) == Err::<TomlFieldsView, Seq<char>>(e@),
        },
{
    match read_toml_entries(text) {
        Ok(es) => Ok(fields_of(&es)),
        Err(e) => Err(e),
    }
}

/// `n` written in decimal, with a leading `-` when negative.
pub open spec fn signed_decimal(n: int) -> Seq<char> {
    if n < 0 { "-"@ + decimal((-n) as nat) } else { decimal(n as nat) }
}

pub(crate) fn signed_decimal_chars(n: i64) -> (r: Vec<char>)
    ensures
        r@ == signed_decimal(n as int),
{
    if n < 0 {
        let mut out = chars_of("-");
        let magnitude: u128 = (0i128 - (n as i128)) as u128;
        extend_chars(&mut out, &decimal_chars_u128(magnitude));
        out
    } else {
        decimal_chars_u128(n as u128)
    }
}

pub open spec fn out_of_range_message(key: Seq<char>, n: int) -> Seq<char> {
    "invalid config: '"@ + key + "' value "@ + signed_decimal(n) + " is out of range"@
}

fn out_of_range(key: &str, n: i64) -> (r: String)
    ensures
        r@ == out_of_range_message(key@, n as int),
{
    let mut msg = chars_of("invalid config: '");
    push_str(&mut msg, key);
    push_str(&mut msg, "' value ");
    extend_chars(&mut msg, &signed_decimal_chars(n));
    push_str(&mut msg, " is out of range");
    string_of(&msg)
}

/// The settings layer a TOML document's values make: integers out of range for their
/// field are a hard error (unlike a wrong-typed value, an out-of-range one can't be a
/// forward-compatible future key, only a mistake in this config file), budget checked
/// first.
pub open spec fn layer_from_fields(f: TomlFieldsView) -> Result<PartialView, Seq<char>> {
    if f.budget is Some && !(0 <= f.budget->0 <= usize::MAX) {
        Err(out_of_range_message("budget"@, f.budget->0 as int))
    } else if f.session_ttl_minutes is Some && !(0 <= f.session_ttl_minutes->0 <= u32::MAX) {
        Err(out_of_range_message("session_ttl_minutes"@, f.session_ttl_minutes->0 as int))
    } else {
        Ok(PartialView {
            budget: match f.budget { Some(n) => Some(n as usize), None => None },
            intent: f.intent,
            session_memory: f.session_memory,
            session_ttl_minutes: match f.session_ttl_minutes { Some(n) => Some(n as u32), None => None },
        })
    }
}

/// The settings layer of a TOML config document (see [`layer_from_fields`]); a document
/// that does not parse is an `invalid config` error.
pub open spec fn layer_from_toml(text: Seq<char>) -> Result<PartialView, Seq<char>> {
    match toml_fields(text) {
        Err(m) => Err("invalid config: "@ + m),
        Ok(f) => layer_from_fields(f),
    }
}

/// Builds the settings layer from the values read out of a TOML document.
pub fn settings_from_fields(fields: TomlFields) -> (r: Result<PartialSettings, String>)
    ensures
        match r {
            Ok(p) => layer_from_fields(fields@) == Ok::<PartialView, Seq<char>>(p@),
            Err(e) => layer_from_fields(fields@) == Err::<PartialView, Seq<char>>(e@),
        },
{
    let budget = match fields.budget {
        None => None,
        Some(n) => {
            if n < 0 || (n as u64) > (usize::MAX as u64) {
                return Err(out_of_range("budget", n));
            }
            Some(n as usize)
        },
    };
    let session_ttl_minutes = match fields.session_ttl_minutes {
        None => None,
        Some(n) => {
            if n < 0 || n > (u32::MAX as i64) {
                return Err(out_of_range("session_ttl_minutes", n));
            }
            Some(n as u32)
        },
    };
    Ok(PartialSettings {
        budget,
        intent: fields.intent,
        session_memory: fields.session_memory,
        session_ttl_minutes,
    })
}

fn parse_toml_settings(text: &str) -> (r: Result<PartialSettings, String>)
    ensures
        match r {
            Ok(p) => layer_from_toml(text@) == Ok::<PartialView, Seq<char>>(p@),
            Err(e) => layer_from_toml(text@) == Err::<PartialView, Seq<char>>(e@),
        },
{
    match read_toml_fields(text) {
        Ok(fields) => settings_from_fields(fields),
        Err(e) => {
            let mut msg = chars_of("invalid config: ");
            push_str(&mut msg, e.as_str());
            Err(string_of(&msg))
        },
    }
}

/// The layer of an optional config document: nothing set when there is none.
pub open spec fn file_layer(text: Option<Seq<char>>) -> Result<PartialView, Seq<char>> {
    match text {
        None => Ok(empty_layer()),
        Some(t) => layer_from_toml(t),
    }
}

pub open spec fn opt_str_view(s: Option<&str>) -> Option<Seq<char>> {
    match s {
        Some(s) => Some(s@),
        None => None,
    }
}

/// The effective config: the global file's layer, then the project file's over it, the
/// environment's over that and the CLI budget on top, completed by the defaults. A file
/// that cannot be read as config is an error, the global one checked first.
pub open spec fn resolve_spec(
    cli_budget: Option<usize>,
    env: PartialView,
    project_toml: Option<Seq<char>>,
    global_toml: Option<Seq<char>>,
) -> Result<SettingsView, Seq<char>> {
    match file_layer(global_toml) {
        Err(e) => Err(e),
        Ok(global) => match file_layer(project_toml) {
            Err(e) => Err(e),
            Ok(project) => {
                let cli = PartialView { budget: cli_budget, ..empty_layer() };
                Ok(complete(merge_spec(merge_spec(merge_spec(global, project), env), cli)))
            },
        },
    }
}

/// Resolves the effective config across all four precedence layers. `cli_budget` is the
/// only field a CLI flag can set this release.
pub fn resolve(
    cli_budget: Option<usize>,
    env: PartialSettings,
    project_toml: Option<&str>,
    global_toml: Option<&str>,
) -> (r: Result<Settings, String>)
    ensures
        match r {
            Ok(s) => resolve_spec(cli_budget, env@, opt_str_view(project_toml), opt_str_view(global_toml))
                == Ok::<SettingsView, Seq<char>>(s@),
            Err(e) => resolve_spec(cli_budget, env@, opt_str_view(project_toml), opt_str_view(global_toml))
                == Err::<SettingsView, Seq<char>>(e@),
        },
{
    let global = match global_toml {
        Some(text) => parse_toml_settings(text)?,
        None => PartialSettings::default(),
    };
    let project = match project_toml {
        Some(text) => parse_toml_settings(text)?,
        None => PartialSettings::default(),
    };
    let cli = PartialSettings { budget: cli_budget, intent: None, session_memory: None, session_ttl_minutes: None };
    let merged = merge(merge(merge(global, project), env), cli);
    let defaults = Settings::defaults();
    Ok(Settings {
        budget: match merged.budget { Some(v) => v, None => defaults.budget },
        intent: match merged.intent { Some(v) => v, None => defaults.intent },
        session_memory: match merged.session_memory { Some(v) => v, None => defaults.session_memory },
        session_ttl_minutes: match merged.session_ttl_minutes { Some(v) => v, None => defaults.session_ttl_minutes },
    })
}


/// Each setting comes from the highest layer that sets it -- the CLI flag, then the
/// environment, then the project config, then the global config -- and from the built-in
/// defaults when none does.
pub proof fn lemma_highest_layer_wins(
    cli_budget: Option<usize>,
    env: PartialView,
    project: PartialView,
    global: PartialView,
)
    ensures
        ({
            let cli = PartialView { budget: cli_budget, ..empty_layer() };
            let s = complete(merge_spec(merge_spec(merge_spec(global, project), env), cli));
            &&& s.budget == (if cli_budget is Some {
                cli_budget->0
            } else if env.budget is Some {
                env.budget->0
            } else if project.budget is Some {
                project.budget->0
            } else if global.budget is Some {
                global.budget->0
            } else {
                2000
            })
            &&& s.intent == (if env.intent is Some {
                env.intent->0
            } else if project.intent is Some {
                project.intent->0
            } else if global.intent is Some {
                global.intent->0
            } else {
                "auto"@
            })
            &&& s.session_memory == (if env.session_memory is Some {
                env.session_memory->0
            } else if project.session_memory is Some {
                project.session_memory->0
            } else if global.session_memory is Some {
                global.session_memory->0
            } else {
                false
            })
            &&& s.session_ttl_minutes == (if env.session_ttl_minutes is Some {
                env.session_ttl_minutes->0
            } else if project.session_ttl_minutes is Some {
                project.session_ttl_minutes->0
            } else if global.session_ttl_minutes is Some {
                global.session_ttl_minutes->0
            } else {
                120
            })
        }),
{
}

/// A value written to a TOML document: an integer, a string or a boolean.
pub enum TomlValue {
    Integer(i64),
    Text(String),
    Boolean(bool),
}

/// The content of a `TomlValue`, as plain values.
pub enum TomlValueView {
    Integer(i64),
    Text(Seq<char>),
    Boolean(bool),
}

impl View for TomlValue {
    type V = TomlValueView;

    open spec fn view(&self) -> TomlValueView {
        match self {
            TomlValue::Integer(n) => TomlValueView::Integer(*n),
            TomlValue::Text(t) => TomlValueView::Text(t@),
            TomlValue::Boolean(b) => TomlValueView::Boolean(*b),
        }
    }
}

pub open spec fn value_entry_views(es: Seq<(String, TomlValue)>) -> Seq<(Seq<char>, TomlValueView)> {
    es.map_values(|e: (String, TomlValue)| (e.0@, e.1@))
}

/// The TOML document `toml::to_string` writes for a table holding `entries` (the empty
/// string if serializing fails).
pub uninterp spec fn toml_text(entries: Seq<(Seq<char>, TomlValueView)>) -> Seq<char>;

/// `toml::to_string` on a `toml::Table` holding `entries`, each value converted as it
/// stands, or the empty string if serializing fails. The contract only names the result:
/// it is a function of the entries alone.
#[verifier::external_body]
fn write_toml(entries: &[(String, TomlValue)]) -> (r: String)
    ensures
        r@ == toml_text(value_entry_views(entries@)),
{
    let table: toml::Table = entries.iter().map(|(key, value)| (key.clone(), match value {
        TomlValue::Integer(n) => toml::Value::Integer(*n),
        TomlValue::Text(t) => toml::Value::String(t.clone()),
        TomlValue::Boolean(b) => toml::Value::Boolean(*b),
    })).collect();
    toml::to_string(&table).unwrap_or_default()
}

/// The settings keys with these values, in the order they are written.
pub open spec fn settings_entries(budget: i64, intent: Seq<char>, session_memory: bool, session_ttl_minutes: i64) -> Seq<(Seq<char>, TomlValueView)> {
    seq![
        ("budget"@, TomlValueView::Integer(budget)),
        ("intent"@, TomlValueView::Text(intent)),
        ("session_memory"@, TomlValueView::Boolean(session_memory)),
        ("session_ttl_minutes"@, TomlValueView::Integer(session_ttl_minutes)),
    ]
}

/// The TOML document `toml::to_string` writes for a table holding the four settings keys
/// with these values.
pub open spec fn toml_document(budget: i64, intent: Seq<char>, session_memory: bool, session_ttl_minutes: i64) -> Seq<char> {
    toml_text(settings_entries(budget, intent, session_memory, session_ttl_minutes))
}

fn write_toml_document(budget: i64, intent: &str, session_memory: bool, session_ttl_minutes: i64) -> (r: String)
    ensures
        r@ == toml_document(budget, intent@, session_memory, session_ttl_minutes),
{
    let entries: Vec<(String, TomlValue)> = vec![
        ("budget".to_string(), TomlValue::Integer(budget)),
        ("intent".to_string(), TomlValue::Text(intent.to_string())),
        ("session_memory".to_string(), TomlValue::Boolean(session_memory)),
        ("session_ttl_minutes".to_string(), TomlValue::Integer(session_ttl_minutes)),
    ];
    assert(value_entry_views(entries@) =~= settings_entries(budget, intent@, session_memory, session_ttl_minutes));
    write_toml(&entries)
}

/// Renders as TOML via the library's own serializer (not hand-formatted), so values
/// needing escaping (quotes, backslashes, control characters in `intent`) come out as
/// valid TOML rather than corrupting the file.
pub fn render(settings: &Settings) -> (r: String)
    ensures
        r@ == toml_document(
            settings.budget as i64,
            settings.intent@,
            settings.session_memory,
            settings.session_ttl_minutes as i64,
        ),
{
    write_toml_document(
        settings.budget as i64,
        settings.intent.as_str(),
        settings.session_memory,
        settings.session_ttl_minutes as i64,
    )
}

} // verus!
