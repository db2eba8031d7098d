use rxtt::paths::config_path;
use rxtt::titles::{
    AppRule, ConfigError, DEFAULT_CONFIG, TitleGroupingConfig, TitleReplacement, format_title_trace,
};
use rxtt::unicode::{normalize_quote, normalize_universal_title};

fn rule(app_match: &str, replacements: &[(&str, &str)]) -> AppRule {
    AppRule {
        app_match: app_match.into(),
        replacements: replacements
            .iter()
            .map(|(pattern, replacement)| TitleReplacement {
                pattern: (*pattern).into(),
                replacement: (*replacement).into(),
            })
            .collect(),
    }
}

fn config(apps: Vec<AppRule>) -> TitleGroupingConfig {
    TitleGroupingConfig::from_rules(Some(1), apps).unwrap()
}

#[test]
fn config_path_prefers_xdg_and_falls_back_to_home() {
    assert_eq!(
        config_path(Some("/config"), Some("/home/a")),
        Ok("/config/rxtt/config.toml".to_owned())
    );
    assert_eq!(
        config_path(None, Some("/home/a")),
        Ok("/home/a/.config/rxtt/config.toml".to_owned())
    );
}

#[test]
fn custom_app_rules_can_remove_and_add_cleanup_rules() {
    let config = config(vec![rule("(?i)vivaldi", &[(r"^\[\d+%\] ", "")])]);
    assert_eq!(config.normalize_title("Firefox", "[42%] Build"), "[42%] build");
    assert_eq!(config.normalize_title("Vivaldi", "[42%] Build"), "build");
}

#[test]
fn matching_app_rules_compose_in_file_order() {
    let config = config(vec![
        rule("example", &[("^working: ", "")]),
        rule("example", &[(r" \[done\]$", "")]),
    ]);
    assert_eq!(config.normalize_title("example", "working: report [done]"), "report");
}

#[test]
fn title_trace_uses_the_full_report_normalization_pipeline() {
    let config = config(vec![
        rule("(?i)browser", &[(r"^\(\d+\) ", ""), ("^inbox$", "mail")]),
        rule("terminal", &[("never", "")]),
    ]);

    let trace = config.trace_title("Browser", "(5)  INBOX");
    assert_eq!(trace.universally_normalized, "(5) inbox");
    assert_eq!(trace.result, "mail");
    assert_eq!(config.normalize_title("Browser", "(5)  INBOX"), trace.result);
    assert_eq!(trace.rules.len(), 2);
    assert!(trace.rules[0].matched);
    assert_eq!(trace.rules[0].replacements[0].input, "(5) inbox");
    assert_eq!(trace.rules[0].replacements[0].output, "inbox");
    assert_eq!(trace.rules[0].replacements[1].output, "mail");
    assert!(!trace.rules[1].matched);
    assert!(trace.rules[1].replacements.is_empty());
}

#[test]
fn title_trace_formatter_keeps_unicode_readable_and_marks_noop_rules() {
    let config = TitleGroupingConfig::built_in();
    let trace = config.trace_title("Firefox", "\u{200e}\u{2068}(5) Inbox");
    let rendered = format_title_trace("Firefox", &trace);

    assert!(rendered.contains("(5) Inbox"));
    assert!(rendered.contains("\\u{200e}"));
    assert!(rendered.contains("(5) inbox\" -> \"inbox\" (changed)"));
    assert!(rendered.contains("inbox\" -> \"inbox\" (unchanged)"));
    assert!(rendered.contains("Rule 2: skipped"));
}

#[test]
fn invalid_config_is_rejected_for_fallback_handling() {
    assert!(TitleGroupingConfig::from_rules(Some(1), vec![]).is_ok());
    assert!(TitleGroupingConfig::from_rules(None, vec![]).is_ok());
    assert!(matches!(
        TitleGroupingConfig::from_rules(Some(2), vec![]),
        Err(ConfigError::UnsupportedVersion(2))
    ));
    assert!(matches!(
        TitleGroupingConfig::from_rules(Some(1), vec![rule("(", &[])]),
        Err(ConfigError::InvalidAppMatch { rule: 0, .. })
    ));
    assert!(matches!(
        TitleGroupingConfig::from_rules(Some(1), vec![rule("x", &[("(", "")])]),
        Err(ConfigError::InvalidPattern { rule: 0, replacement: 0, .. })
    ));
}

#[test]
fn normal_and_traced_normalization_agree() {
    let config = TitleGroupingConfig::built_in();
    for app in ["Firefox", "Telegram", "Alacritty", "unknown", "Firefox Telegram"] {
        for title in ["(5) Inbox", "[!] Working", "\u{200e}ＡＢＣ   ‘Title’", "", "no changes"] {
            assert_eq!(config.normalize_title(app, title), config.trace_title(app, title).result);
        }
    }
}

#[test]
fn universal_normalization_folds_width_case_marks_and_quotes() {
    assert_eq!(normalize_universal_title("\u{200e}ＡＢＣ   ‘Title’"), "abc 'title'");
    assert_eq!(normalize_universal_title("  a\t\nb  "), "a b");
    assert_eq!(normalize_quote('“'), '"');
    assert_eq!(normalize_quote('x'), 'x');
}

#[test]
fn replacements_support_capture_references() {
    let config = config(vec![rule("app", &[(r"^(\w+) - (\w+)$", "$2 $1")])]);
    assert_eq!(config.normalize_title("app", "one - two"), "two one");
}

fn text_of(value: &toml::Value) -> String {
    value.as_str().unwrap().to_owned()
}

#[test]
fn default_config_text_holds_the_built_in_rules() {
    let parsed: toml::Value = toml::from_str(DEFAULT_CONFIG).unwrap();
    assert_eq!(parsed.get("version").and_then(|v| v.as_integer()), Some(1));
    let apps = parsed["title_grouping"]["apps"].as_array().unwrap();
    let built_in = TitleGroupingConfig::built_in();
    assert_eq!(apps.len(), built_in.rules().len());
    for (app, rule) in apps.iter().zip(built_in.rules().iter()) {
        assert_eq!(text_of(&app["match"]), rule.app_match);
        let replacements = app["replacements"].as_array().unwrap();
        assert_eq!(replacements.len(), rule.replacements.len());
        for (replacement, expected) in replacements.iter().zip(rule.replacements.iter()) {
            assert_eq!(text_of(&replacement["pattern"]), expected.pattern);
            assert_eq!(text_of(&replacement["replacement"]), expected.replacement);
        }
    }
}
