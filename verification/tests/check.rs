use urzua::check::audit_corpus;
use urzua::check::{check_corpus, CheckInputs};
use urzua::config::{Config, RecordTypeConfig, RuleLevel, RuleSetting};
use urzua::header::HeaderShape;
use urzua::record::Record;
use urzua::report::{FindingSeverity, ReportStatus, RuleStatus, ScopeSource};
use urzua::rules::all_rules;

fn adr_type() -> RecordTypeConfig {
    RecordTypeConfig {
        dir: "docs/adr".to_string(),
        required_fields: vec!["Author".to_string()],
        header_shape: HeaderShape::Blockquote,
        prefix: None,
        header_layout: None,
        known_fields: Some(vec![]),
        pointer_fields: None,
        narrative_fields: None,
        spec: Some("SPEC-1".to_string()),
        relation_fields: None,
    }
}

fn setting(level: RuleLevel) -> RuleSetting {
    RuleSetting { level, not_in: None, claim_paths: None, closed_statuses: None, terminal_statuses: None }
}

fn config(rules: Vec<(&str, RuleLevel)>) -> Config {
    Config {
        schema_version: 2,
        record_types: vec![("adr".to_string(), adr_type())],
        rules: rules.into_iter().map(|(n, l)| (n.to_string(), setting(l))).collect(),
    }
}

fn inputs(records: Vec<Record>, scopes: Vec<&str>) -> CheckInputs {
    let paths: Vec<String> = records.iter().map(|r| r.path.clone()).collect();
    CheckInputs {
        config_path: ".urzua/config.yaml".to_string(),
        full_text: Vec::new(),
        tracked_paths: paths.clone(),
        in_scope: paths,
        requested_scopes: scopes.into_iter().map(|s| s.to_string()).collect(),
        claims: Vec::new(),
        drifted: Vec::new(),
        present_locators: Vec::new(),
        existing_dirs: vec!["docs/adr".to_string()],
        today: "2026-09-04".to_string(),
        notices: Vec::new(),
        source: ScopeSource::TrackedSweep,
        records,
    }
}

fn adr(path: &str, content: &str) -> Record {
    Record::parse(path.to_string(), "adr".to_string(), content)
}

#[test]
fn a_placeholder_under_an_error_rule_blocks_the_check() {
    let report = check_corpus(
        &config(vec![("field.quality", RuleLevel::Error)]),
        inputs(vec![adr("docs/adr/ADR-1-x.md", "> Author: name\n")], vec![]),
    );
    assert_eq!(report.rules_executed.len(), all_rules().len());
    assert_eq!(report.findings.len(), 1);
    assert_eq!(report.findings[0].severity, FindingSeverity::Error);
    assert!(report.blocking);
    assert_eq!(report.status, ReportStatus::FindingsPresent);
    assert_eq!(report.exit_code(), 1);
}

#[test]
fn a_declared_warn_level_replaces_the_rule_s_own_severity_and_does_not_block() {
    let report = check_corpus(
        &config(vec![("field.quality", RuleLevel::Warn)]),
        inputs(vec![adr("docs/adr/ADR-1-x.md", "> Author: name\n")], vec![]),
    );
    assert_eq!(report.findings.len(), 1);
    assert_eq!(report.findings[0].severity, FindingSeverity::Warning);
    assert!(!report.blocking);
    assert_eq!(report.status, ReportStatus::FindingsPresent);
    assert_eq!(report.exit_code(), 0);
}

#[test]
fn a_clean_corpus_is_clean_and_every_undeclared_rule_is_reported_not_enabled() {
    let report = check_corpus(
        &config(vec![("field.quality", RuleLevel::Error)]),
        inputs(vec![adr("docs/adr/ADR-1-x.md", "> Author: someone\n")], vec![]),
    );
    assert!(report.findings.is_empty());
    assert_eq!(report.status, ReportStatus::Clean);
    assert_eq!(report.files_examined, 1);
    assert_eq!(report.records_read_by_any_rule, 1);
    let ran: Vec<&str> = report
        .rules_executed
        .iter()
        .filter(|e| e.status == RuleStatus::Ran)
        .map(|e| e.rule.as_str())
        .collect();
    assert_eq!(ran, vec!["field.quality"]);
    assert!(report.rules_executed.iter().filter(|e| e.status == RuleStatus::NotEnabled).all(|e| e.population.is_none()));
}

#[test]
fn a_run_with_no_rule_declared_establishes_nothing() {
    let report = check_corpus(&config(vec![]), inputs(vec![adr("docs/adr/ADR-1-x.md", "> Author: name\n")], vec![]));
    assert!(report.findings.is_empty());
    assert_eq!(report.status, ReportStatus::NotRun);
    assert_eq!(report.exit_code(), 2);
}

#[test]
fn a_waived_finding_is_listed_but_does_not_block() {
    let waiver = Record::parse(
        "docs/waivers/WAIVER-1-w.md".to_string(),
        "waiver".to_string(),
        "> Rule: field.quality\n> Scope: docs/adr/ADR-1-x.md\n",
    );
    let report = check_corpus(
        &config(vec![("field.quality", RuleLevel::Error)]),
        inputs(vec![adr("docs/adr/ADR-1-x.md", "> Author: name\n"), waiver], vec![]),
    );
    assert_eq!(report.findings.len(), 1);
    assert_eq!(report.findings[0].waived, Some("docs/waivers/WAIVER-1-w.md".to_string()));
    assert!(!report.blocking);
    assert_eq!(report.status, ReportStatus::Clean);
}

#[test]
fn a_requested_scope_keeps_only_findings_below_it() {
    let report = check_corpus(
        &config(vec![("field.quality", RuleLevel::Error)]),
        inputs(
            vec![adr("docs/adr/ADR-1-x.md", "> Author: name\n"), adr("docs/other/ADR-2-y.md", "> Author: name\n")],
            vec!["docs/other"],
        ),
    );
    assert_eq!(report.findings.len(), 1);
    assert_eq!(report.findings[0].file, "docs/other/ADR-2-y.md");
}

#[test]
fn an_audit_runs_only_the_cross_record_rules() {
    let c = config(vec![("pointer.resolution", RuleLevel::Error), ("field.quality", RuleLevel::Error)]);
    let records = vec![adr("docs/adr/ADR-1-x.md", "> Author: name\n")];
    let report = audit_corpus(&c, &records, "2026-01-01", ScopeSource::TrackedSweep);
    let ids: Vec<&str> = report.rules_executed.iter().map(|e| e.rule.as_str()).collect();
    assert_eq!(ids, vec!["pointer.resolution", "relation.supersession-reciprocity", "identity.collision"]);
    assert!(report.findings.is_empty());
    assert_eq!(report.files_examined, 1);
}

#[test]
fn a_reference_outside_the_requested_scope_still_resolves() {
    let cfg = {
        let mut c = config(vec![("pointer.resolution", RuleLevel::Error)]);
        c.record_types[0].1.pointer_fields = Some(vec!["Implements".to_string()]);
        c.record_types[0].1.narrative_fields = Some(vec![]);
        c.record_types.push((
            "rfc".to_string(),
            RecordTypeConfig { dir: "docs/rfc".to_string(), ..adr_type() },
        ));
        c
    };
    let records = vec![
        adr("docs/adr/ADR-1-x.md", "> Author: beau\n> Implements: RFC-2\n"),
        Record::parse("docs/rfc/RFC-2-y.md".to_string(), "rfc".to_string(), "> Author: beau\n"),
    ];
    let whole = check_corpus(&cfg, inputs(records.clone(), vec![]));
    let scoped = check_corpus(&cfg, inputs(records, vec!["docs/adr"]));
    assert!(whole.findings.is_empty(), "{:?}", whole.findings);
    assert!(scoped.findings.is_empty(), "RFC-2 lies outside the scope and still exists: {:?}", scoped.findings);
}

#[test]
fn records_read_by_any_rule_never_exceed_the_files_examined() {
    let mut given = inputs(
        vec![
            adr("docs/adr/ADR-2-y.md", "> Author: beau\n"),
            adr("docs/adr/ADR-1-x.md", "> Author: beau\n"),
        ],
        vec![],
    );
    given.in_scope = vec!["docs/adr/ADR-1-x.md".to_string(), "README.md".to_string()];
    let report = check_corpus(&config(vec![("field.quality", RuleLevel::Error)]), given);
    assert_eq!(report.files_examined, 1);
    assert_eq!(report.records_read_by_any_rule, 1);
    let quality = report.rules_executed.iter().find(|e| e.rule == "field.quality").unwrap();
    assert_eq!(quality.examined_records, vec!["docs/adr/ADR-1-x.md".to_string(), "docs/adr/ADR-2-y.md".to_string()]);
}
