use urzua::fix::{build_fix_report, detect};
use urzua::report::{FixFailure, FixStatus};
use urzua::fix::detect_repairs;
use urzua::record::Record;

fn record(path: &str, content: &str) -> Record {
    Record::parse(path.to_string(), "adr".to_string(), content)
}

#[test]
fn a_mismatched_embodiment_is_a_tier_1_repair_observed_failing() {
    let r = record("docs/adr/0001-x.md", "> Embodiment: Not started\n> Realized-by: code:src/lib.rs\n");
    let (examined, repairs) = detect_repairs(&[r]);
    assert_eq!(examined, 1);
    assert_eq!(repairs.len(), 1);
    assert_eq!(repairs[0].field, "Embodiment");
    assert_eq!(repairs[0].current_value, "Not started");
    assert_eq!(repairs[0].computed_value, "Implemented");
    assert_eq!(repairs[0].tier, 1);
}

#[test]
fn a_matching_embodiment_is_not_a_repair() {
    let r = record("docs/adr/0001-x.md", "> Embodiment: Implemented\n> Realized-by: code:src/lib.rs\n");
    let (examined, repairs) = detect_repairs(&[r]);
    assert_eq!(examined, 1);
    assert!(repairs.is_empty());
}

#[test]
fn no_realized_by_produces_no_repair_and_is_not_examined() {
    let r = record("docs/adr/0001-x.md", "> Embodiment: Not started\n");
    let (examined, repairs) = detect_repairs(&[r]);
    assert_eq!(examined, 0);
    assert!(repairs.is_empty());
}

#[test]
fn a_spec_only_locator_computes_specified() {
    let r = record("docs/adr/0002-y.md", "> Embodiment: Not started\n> Realized-by: spec:docs/rfc/0002-z.md\n");
    let (examined, repairs) = detect_repairs(&[r]);
    assert_eq!(examined, 1);
    assert_eq!(repairs.len(), 1);
    assert_eq!(repairs[0].computed_value, "Specified");
    assert_eq!(repairs[0].record, "docs/adr/0002-y.md");
}

#[test]
fn a_fix_report_says_whether_anything_was_examined_repaired_or_failed() {
    let r = record("docs/adr/0001-x.md", "> Embodiment: Not started\n> Realized-by: code:src/lib.rs\n");
    let (population, repairs) = detect(&[r]);
    assert_eq!((population.eligible(), population.examined()), (1, 1));
    let detect_report = build_fix_report(population, repairs.clone(), Vec::new(), None, false);
    assert_eq!(detect_report.status, FixStatus::RepairsAvailable);
    assert_eq!(detect_report.exit_code(), 0);
    let applied = build_fix_report(population, repairs.clone(), Vec::new(), Some("no gh login".to_string()), true);
    assert_eq!(applied.status, FixStatus::Applied);
    assert_eq!(applied.notices.len(), 1);
    assert_eq!(applied.notices[0].subject, "identity");
    let failed = vec![FixFailure { record: "docs/adr/0001-x.md".to_string(), error: "could not write".to_string() }];
    let partial = build_fix_report(population, repairs, failed, None, true);
    assert_eq!(partial.status, FixStatus::PartialFailure);
    assert_eq!(partial.exit_code(), 1);
    let (nothing, none) = detect(&[]);
    let empty = build_fix_report(nothing, none, Vec::new(), None, false);
    assert_eq!(empty.status, FixStatus::NotRun);
    assert_eq!(empty.exit_code(), 2);
}
