use php_checker::analyzer::config::AnalyzerConfig;

#[test]
fn rule_group_defaults_propagate_to_children() {
    let mut config = AnalyzerConfig::new();
    config.set_rule("psr4", false);
    assert!(!config.enabled("psr4/namespace"));
}

#[test]
fn specific_rule_toggle_overrides_group() {
    let mut config = AnalyzerConfig::new();
    config.set_rule("psr4", true);
    config.set_rule("psr4/namespace", false);

    assert!(config.enabled("psr4"));
    assert!(!config.enabled("psr4/namespace"));
    assert!(config.enabled("psr4/anything"));
}

#[test]
fn group_fallback_with_override() {
    let mut config = AnalyzerConfig::new();
    config.set_rule("psr4", true);
    config.set_rule("psr4/namespace", false);
    assert!(!config.enabled("psr4/namespace"));
    assert!(config.enabled("psr4/anything_else"));
}

#[test]
fn rules_without_any_toggle_are_enabled() {
    let mut config = AnalyzerConfig::new();
    assert!(config.enabled("cleanup/unused_use"));
    assert!(!config.psr4.enabled);
    assert!(config.psr4.namespace_root.is_none());
    config.set_rule("cleanup", false);
    assert!(!config.enabled("cleanup/unused_use"));
    assert!(!config.enabled("cleanup/deep/er"));
    assert!(config.enabled("cleanupish/other"));
    assert!(config.enabled("strict_typing/missing_return"));
}

#[test]
fn a_later_toggle_replaces_an_earlier_one() {
    let mut config = AnalyzerConfig::new();
    config.set_rule("api", false);
    config.set_rule("api", true);
    assert!(config.enabled("api/deprecated_api"));
}

#[test]
fn find_config_prefers_the_given_path_then_yaml_then_yml() {
    let given = Some(b"custom.yaml".to_vec());
    assert_eq!(AnalyzerConfig::find_config(given.clone(), "root", true, true), given);
    assert_eq!(
        AnalyzerConfig::find_config(None, "root", true, true),
        Some(b"root/php_checker.yaml".to_vec())
    );
    assert_eq!(
        AnalyzerConfig::find_config(None, "root/", false, true),
        Some(b"root/php_checker.yml".to_vec())
    );
    assert_eq!(
        AnalyzerConfig::find_config(None, "", false, true),
        Some(b"php_checker.yml".to_vec())
    );
    assert_eq!(AnalyzerConfig::find_config(None, "root", false, false), None);
}

#[test]
fn the_default_configuration_enables_every_rule() {
    let config = AnalyzerConfig::default();
    assert!(config.rules.is_empty());
    assert!(!config.psr4.enabled);
    assert!(config.psr4.namespace_root.is_none());
    assert!(config.enabled("psr4/namespace"));
    assert!(config.enabled("sanity/undefined_variable"));
}

#[test]
fn a_clone_of_a_configuration_keeps_its_toggles() {
    let mut config = AnalyzerConfig::new();
    config.set_rule("psr4", false);
    config.set_rule("psr4/namespace", true);
    config.psr4.enabled = true;
    config.psr4.namespace_root = Some(b"src".to_vec());
    let copy = config.clone();
    assert_eq!(copy.rules, config.rules);
    assert!(copy.psr4.enabled);
    assert_eq!(copy.psr4.namespace_root, Some(b"src".to_vec()));
    assert!(copy.enabled("psr4/namespace"));
    assert!(!copy.enabled("psr4/other"));
}
