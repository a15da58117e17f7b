use stk::config::settings::{render, resolve, PartialSettings, Settings};

fn env_budget(budget: usize) -> PartialSettings {
    PartialSettings {
        budget: Some(budget),
        ..Default::default()
    }
}

#[test]
fn defaults_apply_when_nothing_is_set_anywhere() {
    let resolved = resolve(None, PartialSettings::default(), None, None).unwrap();
    assert_eq!(resolved, Settings::defaults());
}

#[test]
fn global_config_overrides_built_in_defaults() {
    let resolved = resolve(
        None,
        PartialSettings::default(),
        None,
        Some("budget = 3000"),
    )
    .unwrap();
    assert_eq!(resolved.budget, 3000);
}

#[test]
fn settings_project_config_overrides_global_config() {
    let resolved = resolve(
        None,
        PartialSettings::default(),
        Some("budget = 4000"),
        Some("budget = 3000"),
    )
    .unwrap();
    assert_eq!(resolved.budget, 4000);
}

#[test]
fn settings_env_var_overrides_project_config() {
    let resolved = resolve(
        None,
        env_budget(5000),
        Some("budget = 4000"),
        Some("budget = 3000"),
    )
    .unwrap();
    assert_eq!(resolved.budget, 5000);
}

#[test]
fn settings_cli_flag_overrides_env_var() {
    let resolved = resolve(
        Some(6000),
        env_budget(5000),
        Some("budget = 4000"),
        Some("budget = 3000"),
    )
    .unwrap();
    assert_eq!(resolved.budget, 6000);
}

#[test]
fn a_layer_missing_one_field_falls_through_to_the_layer_below() {
    let resolved = resolve(
        None,
        PartialSettings::default(),
        Some("intent = \"debug\""),
        Some("budget = 3000"),
    )
    .unwrap();
    assert_eq!(resolved.budget, 3000);
    assert_eq!(resolved.intent, "debug");
}

#[test]
fn intent_session_memory_and_ttl_are_parsed_but_have_no_behavioral_effect() {
    let resolved = resolve(
        None,
        PartialSettings::default(),
        Some("intent = \"debug\"\nsession_memory = true\nsession_ttl_minutes = 45"),
        None,
    )
    .unwrap();
    assert_eq!(resolved.intent, "debug");
    assert!(resolved.session_memory);
    assert_eq!(resolved.session_ttl_minutes, 45);
}

#[test]
fn an_unrecognized_config_key_does_not_fail_parsing() {
    let resolved = resolve(
        None,
        PartialSettings::default(),
        None,
        Some("budget = 3000\n[tree_sitter]\nenabled = true"),
    )
    .unwrap();
    assert_eq!(resolved.budget, 3000);
}

#[test]
fn malformed_toml_is_a_clear_error() {
    let err =
        resolve(None, PartialSettings::default(), Some("not = [valid"), None).unwrap_err();
    assert!(err.contains("invalid config"));
}

#[test]
fn a_negative_budget_is_a_clear_error_not_a_silent_wraparound() {
    let err = resolve(None, PartialSettings::default(), None, Some("budget = -1")).unwrap_err();
    assert!(err.contains("out of range"));
}

#[test]
fn render_escapes_special_characters_in_intent() {
    let mut settings = Settings::defaults();
    settings.intent = "say \"hi\"\\now".to_string();
    let rendered = render(&settings);
    let parsed: toml::Table = toml::from_str(&rendered).unwrap();
    assert_eq!(
        parsed.get("intent").and_then(|v| v.as_str()),
        Some("say \"hi\"\\now")
    );
}

#[test]
fn the_defaults_are_the_documented_ones() {
    let d = Settings::defaults();
    assert_eq!(d.budget, 2000);
    assert_eq!(d.intent, "auto");
    assert!(!d.session_memory);
    assert_eq!(d.session_ttl_minutes, 120);
}

#[test]
fn an_out_of_range_ttl_names_the_key_and_the_value() {
    let err = resolve(
        None,
        PartialSettings::default(),
        Some("session_ttl_minutes = 5000000000"),
        None,
    )
    .unwrap_err();
    assert_eq!(
        err,
        "invalid config: 'session_ttl_minutes' value 5000000000 is out of range"
    );
    let err = resolve(None, PartialSettings::default(), None, Some("budget = -1")).unwrap_err();
    assert_eq!(err, "invalid config: 'budget' value -1 is out of range");
}

#[test]
fn a_wrong_typed_value_is_ignored_rather_than_an_error() {
    let resolved = resolve(None, PartialSettings::default(), Some("budget = \"lots\""), None).unwrap();
    assert_eq!(resolved.budget, 2000);
}

#[test]
fn rendered_defaults_read_back_as_the_defaults() {
    let rendered = render(&Settings::defaults());
    let resolved = resolve(None, PartialSettings::default(), Some(rendered.as_str()), None).unwrap();
    assert_eq!(resolved, Settings::defaults());
}

#[test]
fn wrongly_typed_and_unknown_keys_are_ignored_and_each_key_is_read_by_its_type() {
    let project = "budget = \"lots\"\nintent = \"review\"\nsession_memory = true\nfuture_key = [1, 2]\nsession_ttl_minutes = 30\n";
    let resolved = resolve(None, PartialSettings::default(), Some(project), None).unwrap();
    assert_eq!(resolved.budget, Settings::defaults().budget);
    assert_eq!(resolved.intent, "review");
    assert!(resolved.session_memory);
    assert_eq!(resolved.session_ttl_minutes, 30);
}
