use urzua::report::{
    census, census_records, records_read_by_any_rule, records_read_by_any_rule_within, CheckReport, CouldNotRun,
    Notice, NoticeSeverity, Outcome, Population, PopulationUnit, ReportStatus, RuleExecution, RuleStatus,
    ScopeInfo, ScopeSource,
};

fn ran(rule: &str, population: Population, records: &[&str]) -> RuleExecution {
    RuleExecution {
        rule: rule.to_string(),
        population: Some(population),
        status: RuleStatus::Ran,
        examined_records: records.iter().map(|s| s.to_string()).collect(),
    }
}

#[test]
fn a_total_across_units_is_a_union_of_records_never_a_sum_of_populations() {
    let executed = vec![
        ran("field.quality", Population::of(PopulationUnit::Field, 4, 4), &["a.md", "b.md"]),
        ran("identity.collision", Population::of(PopulationUnit::Record, 2, 2), &["a.md", "b.md"]),
        ran("type.no-declared-spec", Population::of(PopulationUnit::RecordType, 1, 1), &[]),
    ];
    let naive_sum: usize = executed.iter().filter_map(|e| e.population.as_ref()).map(|p| p.examined()).sum();
    assert_eq!(naive_sum, 7, "the mistake this guards against");
    assert_eq!(records_read_by_any_rule(&executed), 2, "two records, however many rules and units judged them");
}

#[test]
fn a_rule_that_did_not_run_contributes_no_records() {
    let executed = vec![RuleExecution {
        rule: "field.quality".to_string(),
        population: None,
        status: RuleStatus::NotEnabled,
        examined_records: vec!["a.md".to_string()],
    }];
    assert_eq!(records_read_by_any_rule(&executed), 0);
}

#[test]
fn a_population_carries_the_unit_its_numbers_are_in() {
    let types = Population::of(PopulationUnit::RecordType, 6, 6);
    let records = Population::of(PopulationUnit::Record, 309, 309);
    assert_ne!(types.unit(), records.unit(), "six declarations and 309 records must not read as the same quantity");
}

fn warning_notice() -> Notice {
    Notice { severity: NoticeSeverity::Warning, subject: "test".to_string(), message: "a non-fatal observation".to_string() }
}

fn check_report(status: ReportStatus, blocking: bool, notices: Vec<Notice>) -> CheckReport {
    CheckReport {
        status,
        files_examined: 1,
        records_read_by_any_rule: 0,
        rules_executed: vec![],
        scope: ScopeInfo { source: ScopeSource::TrackedSweep, record_types: vec![] },
        blocking,
        findings: vec![],
        notices,
    }
}

#[test]
fn notices_never_move_a_successful_exit_code() {
    let report = check_report(ReportStatus::Clean, false, vec![warning_notice()]);
    assert_eq!(report.exit_code(), 0);
}

#[test]
fn notices_never_move_a_not_run_exit_code() {
    let without_notices = CouldNotRun::from("could not run");
    let with_notices = CouldNotRun { notices: vec![warning_notice()], ..CouldNotRun::from("could not run") };
    assert_eq!(without_notices.exit_code(), with_notices.exit_code());
    assert_eq!(with_notices.exit_code(), 2);
}

#[test]
fn a_blocking_report_exits_one_with_or_without_notices() {
    assert_eq!(check_report(ReportStatus::FindingsPresent, true, vec![]).exit_code(), 1);
    assert_eq!(check_report(ReportStatus::FindingsPresent, true, vec![warning_notice()]).exit_code(), 1);
    assert_eq!(check_report(ReportStatus::NotRun, false, vec![]).exit_code(), 2);
}

#[test]
fn a_census_counts_each_outcome() {
    let outcomes = vec![Outcome::Examined, Outcome::Absent, Outcome::OutOfScope, Outcome::Examined, Outcome::Unreadable];
    let p = census(PopulationUnit::Field, &outcomes);
    assert_eq!(p.unit(), PopulationUnit::Field);
    assert_eq!(p.eligible(), 5);
    assert_eq!(p.examined(), 2);
    assert_eq!(p.out_of_scope(), 1);
}

#[test]
fn census_records_lists_each_judged_record_once() {
    let outcomes = vec![Outcome::Examined, Outcome::Examined, Outcome::Absent];
    let owners = vec!["a.md".to_string(), "a.md".to_string(), "b.md".to_string()];
    let (p, judged) = census_records(PopulationUnit::Field, &outcomes, &owners);
    assert_eq!(p.examined(), 2);
    assert_eq!(judged, vec!["a.md".to_string()]);
}

#[test]
fn records_read_within_a_scope_count_only_that_scope() {
    let executed = vec![ran("r", Population::of(PopulationUnit::Record, 3, 3), &["a.md", "b.md", "c.md"])];
    assert_eq!(records_read_by_any_rule_within(&executed, &vec!["b.md".to_string(), "z.md".to_string()]), 1);
}

#[test]
fn census_records_lists_the_judged_records_sorted_by_path() {
    let outcomes = vec![Outcome::Examined, Outcome::Examined, Outcome::Examined];
    let owners = vec!["b.md".to_string(), "a.md".to_string(), "b.md".to_string()];
    let (p, judged) = census_records(PopulationUnit::Record, &outcomes, &owners);
    assert_eq!(p.examined(), 3);
    assert_eq!(judged, vec!["a.md".to_string(), "b.md".to_string()]);
}

#[test]
fn census_records_orders_paths_by_component_and_lists_each_path_once() {
    let outcomes = vec![Outcome::Examined; 4];
    let owners = vec![
        "docs/adr-old/x.md".to_string(),
        "docs/adr/y.md".to_string(),
        "docs/adr/y.md/".to_string(),
        "a/b.md".to_string(),
    ];
    let (p, judged) = census_records(PopulationUnit::Record, &outcomes, &owners);
    assert_eq!(p.examined(), 4);
    assert_eq!(
        judged,
        vec!["a/b.md".to_string(), "docs/adr/y.md".to_string(), "docs/adr-old/x.md".to_string()]
    );
}

#[test]
fn records_read_count_one_path_once_however_it_is_spelled() {
    let executed = vec![
        ran("a", Population::of(PopulationUnit::Record, 1, 1), &["docs/a.md"]),
        ran("b", Population::of(PopulationUnit::Record, 2, 2), &["docs//a.md", "docs/b.md"]),
    ];
    assert_eq!(records_read_by_any_rule(&executed), 2);
    assert_eq!(records_read_by_any_rule_within(&executed, &vec!["docs/./a.md".to_string()]), 1);
}
