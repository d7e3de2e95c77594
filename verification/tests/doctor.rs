use urzua::config::{Config, RecordTypeConfig};
use urzua::doctor::{health, invokes_checker, missing_config, unloadable_config, DoctorStatus};
use urzua::header::HeaderShape;

fn config(required: Vec<String>) -> Config {
    Config {
        schema_version: 2,
        rules: Vec::new(),
        record_types: vec![(
            "adr".to_string(),
            RecordTypeConfig {
                dir: "docs/adr".to_string(),
                required_fields: required,
                header_shape: HeaderShape::Blockquote,
                prefix: None,
                header_layout: None,
                known_fields: None,
                pointer_fields: None,
                narrative_fields: None,
                spec: None,
                relation_fields: None,
            },
        )],
    }
}

#[test]
fn a_missing_configuration_exits_two() {
    let r = missing_config(".urzua/config.yaml");
    assert_eq!(r.status, DoctorStatus::Error);
    assert_eq!(r.exit_code, 2);
    assert_eq!(r.checks[0].message, ".urzua/config.yaml does not exist -- run `urzua init` to adopt this corpus");
}

#[test]
fn an_unloadable_configuration_exits_one() {
    let r = unloadable_config(".urzua/config.yaml", "bad key");
    assert_eq!(r.exit_code, 1);
    assert_eq!(r.checks[1].message, "config does not parse: bad key");
}

#[test]
fn a_healthy_repository_is_clean() {
    let r = health(".urzua/config.yaml", &config(vec!["Status".to_string()]), &vec!["docs/adr".to_string()], Ok(true), ".github/workflows");
    assert_eq!(r.status, DoctorStatus::Clean);
    assert_eq!(r.exit_code, 0);
    let names: Vec<&str> = r.checks.iter().map(|c| c.check.as_str()).collect();
    assert_eq!(names, vec!["config-exists", "config-parses", "record-type-dir", "ci-wired"]);
}

#[test]
fn an_unwired_repository_warns_and_a_missing_directory_is_an_error() {
    let warned = health(".urzua/config.yaml", &config(vec![]), &vec!["docs/adr".to_string()], Ok(false), ".github/workflows");
    assert_eq!(warned.status, DoctorStatus::Warn);
    assert_eq!(warned.exit_code, 0);
    let failed = health(".urzua/config.yaml", &config(vec!["Status".to_string()]), &vec![], Err("could not read x".to_string()), ".github/workflows");
    assert_eq!(failed.status, DoctorStatus::Error);
    assert_eq!(failed.exit_code, 1);
    assert!(failed.checks.iter().any(|c| c.message == "record type 'adr' declares dir 'docs/adr', which does not exist"));
}

#[test]
fn a_workflow_runs_the_checker_through_either_entry_point() {
    assert!(invokes_checker("steps:\n  - run: urzua check docs/\n"));
    assert!(invokes_checker("run: make records"));
    assert!(!invokes_checker("run: cargo test"));
}
