use urzua::config::{
    known_rules, rule_requires_options, validate, Config, ConfigError, RecordTypeConfig, RelationRole, RuleLevel,
    RuleSetting, CURRENT_SCHEMA_VERSION,
};
use urzua::header::HeaderShape;

fn adr_type() -> RecordTypeConfig {
    RecordTypeConfig {
        dir: "docs/adr".to_string(),
        required_fields: Vec::new(),
        header_shape: HeaderShape::default(),
        prefix: None,
        header_layout: None,
        known_fields: None,
        pointer_fields: None,
        narrative_fields: None,
        spec: None,
        relation_fields: None,
    }
}

fn config_with_rules(rules: Vec<(&str, RuleSetting)>) -> Config {
    Config {
        schema_version: 2,
        record_types: vec![("adr".to_string(), adr_type())],
        rules: rules.into_iter().map(|(n, s)| (n.to_string(), s)).collect(),
    }
}

fn bare(level: RuleLevel) -> RuleSetting {
    RuleSetting { level, not_in: None, claim_paths: None, closed_statuses: None, terminal_statuses: None }
}

fn list(v: &[&str]) -> Option<Vec<String>> {
    Some(v.iter().map(|s| s.to_string()).collect())
}

fn error_of(config: Config) -> String {
    match validate(config) {
        Ok(_) => panic!("the configuration was expected not to load"),
        Err(e) => e.message(),
    }
}

#[test]
fn a_rule_missing_an_option_it_requires_is_rejected_observed_failing() {
    let no_statuses = config_with_rules(vec![(
        "claim.status-agreement",
        RuleSetting { claim_paths: list(&[".changeset"]), ..bare(RuleLevel::Error) },
    )]);
    let err = error_of(no_statuses);
    assert!(err.contains("closed_statuses"), "{err}");
    assert!(err.contains("every claim"), "{err}");

    let no_paths = config_with_rules(vec![(
        "claim.status-agreement",
        RuleSetting { closed_statuses: list(&["Fixed"]), ..bare(RuleLevel::Error) },
    )]);
    assert!(error_of(no_paths).contains("claim_paths"));

    let no_not_in = config_with_rules(vec![("pointer.target-status", bare(RuleLevel::Warn))]);
    assert!(error_of(no_not_in).contains("not_in"));

    for bad in [&[][..], &[""][..], &["  "][..]] {
        let cfg = config_with_rules(vec![("pointer.target-status", RuleSetting { not_in: list(bad), ..bare(RuleLevel::Warn) })]);
        assert!(error_of(cfg).contains("not_in"), "{bad:?} should be rejected");
    }

    assert!(validate(config_with_rules(vec![("pointer.target-status", bare(RuleLevel::Off))])).is_ok());
    assert!(validate(config_with_rules(vec![("claim.status-agreement", bare(RuleLevel::Off))])).is_ok());

    let complete = config_with_rules(vec![(
        "claim.status-agreement",
        RuleSetting {
            claim_paths: list(&[".changeset"]),
            closed_statuses: list(&["Fixed"]),
            ..bare(RuleLevel::Error)
        },
    )]);
    assert!(validate(complete).is_ok());
}

#[test]
fn an_unknown_rule_name_is_rejected_and_names_the_valid_set() {
    let err = error_of(config_with_rules(vec![("field.qualty", bare(RuleLevel::Error))]));
    assert!(err.contains("field.qualty"), "{err}");
    assert!(err.contains("field.quality"), "{err}");
}

#[test]
fn an_option_on_a_rule_that_does_not_take_it_is_rejected() {
    let err = error_of(config_with_rules(vec![(
        "field.quality",
        RuleSetting { not_in: list(&["Draft"]), ..bare(RuleLevel::Error) },
    )]));
    assert!(err.contains("field.quality"), "{err}");
    assert!(err.contains("not_in"), "{err}");
}

#[test]
fn omitting_rules_entirely_means_no_rule_runs() {
    let loaded = validate(config_with_rules(vec![])).unwrap();
    assert!(loaded.rules.is_empty());
    assert!(loaded.rule_setting("field.quality").is_none());
}

#[test]
fn an_unrecognized_schema_version_is_rejected() {
    let config = Config { schema_version: 99, ..config_with_rules(vec![]) };
    let err = validate(config).unwrap_err();
    assert!(matches!(err, ConfigError::UnrecognizedSchemaVersion { found: 99 }));
    assert_eq!(
        err.message(),
        "unrecognized schema_version 99 -- this build of urzua understands version 2"
    );
}

#[test]
fn a_valid_configuration_loads_unchanged() {
    let config = config_with_rules(vec![("field.quality", bare(RuleLevel::Error))]);
    let loaded = validate(config).unwrap();
    assert_eq!(loaded.schema_version, CURRENT_SCHEMA_VERSION);
    assert_eq!(loaded.rule_setting("field.quality").map(|s| s.level), Some(RuleLevel::Error));
    assert_eq!(loaded.type_config("adr").map(|t| t.dir.as_str()), Some("docs/adr"));
}

#[test]
fn the_unknown_rule_error_lists_the_known_rules_sorted() {
    let err = validate(config_with_rules(vec![("nope", bare(RuleLevel::Warn))])).unwrap_err();
    match err {
        ConfigError::UnknownRule { found, known } => {
            assert_eq!(found, "nope");
            let mut sorted = known.clone();
            sorted.sort();
            assert_eq!(known, sorted);
            assert_eq!(known, known_rules());
        }
        other => panic!("expected an unknown-rule error, got {other:?}"),
    }
}

#[test]
fn only_the_option_taking_rules_require_options() {
    assert!(rule_requires_options("claim.status-agreement"));
    assert!(rule_requires_options("pointer.target-status"));
    assert!(!rule_requires_options("field.quality"));
}

#[test]
fn a_relation_role_reads_its_override_or_its_default() {
    let mut t = adr_type();
    assert_eq!(t.relation_field(RelationRole::Status), "Status");
    t.relation_fields = Some(urzua::config::RelationFields { status: Some("State".to_string()), ..Default::default() });
    assert_eq!(t.relation_field(RelationRole::Status), "State");
    assert_eq!(t.relation_field(RelationRole::EmbodimentLocator), "Realized-by");
}

#[test]
fn a_rule_level_names_itself() {
    assert_eq!(RuleLevel::Off.as_str(), "off");
    assert_eq!(RuleLevel::Warn.as_str(), "warn");
    assert_eq!(RuleLevel::Error.as_str(), "error");
}

#[test]
fn terminal_statuses_belong_to_narrative_field_stale_only() {
    let misplaced = config_with_rules(vec![(
        "field.quality",
        RuleSetting { terminal_statuses: list(&["Fixed"]), ..bare(RuleLevel::Warn) },
    )]);
    let err = error_of(misplaced);
    assert_eq!(err, "rule 'field.quality' does not take the option 'terminal_statuses'");
    let placed = config_with_rules(vec![(
        "narrative-field.stale",
        RuleSetting { terminal_statuses: list(&["Fixed"]), ..bare(RuleLevel::Warn) },
    )]);
    assert!(validate(placed).is_ok());
}

#[test]
fn a_record_type_or_rule_declared_twice_is_rejected() {
    let mut twice = config_with_rules(vec![]);
    twice.record_types.push(("adr".to_string(), adr_type()));
    match validate(twice).unwrap_err() {
        ConfigError::DuplicateName { section, name } => {
            assert_eq!(section, "record_types");
            assert_eq!(name, "adr");
        }
        other => panic!("expected a duplicate-name error, got {other:?}"),
    }
    let rule_twice = config_with_rules(vec![
        ("field.quality", bare(RuleLevel::Error)),
        ("field.quality", bare(RuleLevel::Warn)),
    ]);
    assert_eq!(error_of(rule_twice), "'field.quality' is declared more than once under `rules:`");
}
