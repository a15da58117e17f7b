use stk::config::settings::{render, Settings};
use stk::verbs::config::{env_settings, parse_args, show};

#[test]
fn config_accepts_only_create() {
    assert_eq!(parse_args(&[]), Ok(false));
    assert_eq!(parse_args(&["--create".to_string()]), Ok(true));
    assert_eq!(parse_args(&["--create".to_string(), "-x".to_string()]), Err("-x".to_string()));
}

#[test]
fn the_report_names_the_file_and_hints_when_it_is_missing() {
    let mut stdout = Vec::new();
    let settings = Settings::defaults();
    assert_eq!(show("/cfg/config.toml", false, &settings, &mut stdout), 0);
    assert_eq!(
        String::from_utf8(stdout).unwrap(),
        format!(
            "Config: /cfg/config.toml\n\n(no config file at this path yet -- run `stk config --create`)\n\n{}",
            render(&settings)
        )
    );
}

#[test]
fn the_environment_budget_is_trimmed_and_must_be_a_non_negative_integer() {
    assert_eq!(env_settings(None).unwrap().budget, None);
    assert_eq!(env_settings(Some(" 500\n")).unwrap().budget, Some(500));
    assert_eq!(env_settings(Some("+7")).unwrap().budget, Some(7));
    assert_eq!(
        env_settings(Some("-1")).unwrap_err(),
        "invalid STK_BUDGET '-1': expected a non-negative integer"
    );
    assert_eq!(
        env_settings(Some("lots")).unwrap_err(),
        "invalid STK_BUDGET 'lots': expected a non-negative integer"
    );
}
