use urzua::migrate::stable_id_backfill;
use urzua::migrate::missing_stable_id;
use urzua::migrate::with_stable_id;
use urzua::report::{MigrateIdsOutcome, MigrateIdsReport, MigrateIdsResult, ReportStatus};
use urzua::header::HeaderShape;
use urzua::migrate::schema_report;
use urzua::record::Record;
use urzua::report::PopulationUnit;
use urzua::FieldState;

fn record(path: &str, record_type: &str, content: &str) -> Record {
    Record::parse(path.to_string(), record_type.to_string(), content)
}

#[test]
fn a_record_missing_the_candidate_field_is_reported_observed_failing() {
    let r = record("docs/adr/0001-x.md", "adr", "> Status: Accepted\n");
    let (population, report, notices) = schema_report(&[r], "Approvers");
    assert_eq!((population.eligible(), population.examined()), (1, 1));
    assert_eq!(report.len(), 1);
    assert_eq!(report[0].state, FieldState::Blank);
    assert!(notices.is_empty());
}

#[test]
fn a_record_already_carrying_the_field_is_not_reported() {
    let r = record("docs/adr/0001-x.md", "adr", "> Status: Accepted\n> Approvers: alice\n");
    let (population, report, _notices) = schema_report(&[r], "Approvers");
    assert_eq!((population.eligible(), population.examined()), (1, 1));
    assert!(report.is_empty());
}

#[test]
fn an_unparsed_header_is_not_reported_as_blank_observed_failing() {
    let r = Record::parse_with_shape_and_prefix(
        "docs/adr/0001-x.md".to_string(),
        "adr".to_string(),
        "---\nStatus: Accepted\n  Date  :: broken\n---\n# 1 — X\n",
        HeaderShape::YamlFrontmatter,
        "ADR".to_string(),
    );
    let (population, report, _notices) = schema_report(&[r], "Approvers");
    assert_eq!((population.eligible(), population.examined()), (1, 0));
    assert!(report.is_empty(), "{report:?}");
}

#[test]
fn placeholder_text_is_reported_distinctly_from_blank() {
    let r = record("docs/adr/0001-x.md", "adr", "> Status: Accepted\n> Approvers: TBD\n");
    let (population, report, _notices) = schema_report(&[r], "Approvers");
    assert_eq!((population.eligible(), population.examined()), (1, 1));
    assert_eq!(report.len(), 1);
    assert_eq!(report[0].state, FieldState::Placeholder);
}

#[test]
fn a_schema_report_is_counted_in_records_and_names_each_one() {
    let a = record("docs/adr/0001-x.md", "adr", "> Status: Accepted\n");
    let b = record("docs/rfc/0002-y.md", "rfc", "> Approvers: Pending sign-off\n");
    let (population, report, _notices) = schema_report(&[a, b], "Approvers");
    assert_eq!(population.unit(), PopulationUnit::Record);
    assert_eq!(population.eligible(), 2);
    assert_eq!(report.len(), 2);
    assert_eq!(report[0].record, "docs/adr/0001-x.md");
    assert_eq!(report[0].record_type, "adr");
    assert_eq!(report[1].state, FieldState::Pending);
}

#[test]
fn a_stable_id_backfill_touches_only_records_without_one() {
    let a = record("docs/adr/0001-x.md", "adr", "> Status: Accepted\n");
    let b = record("docs/adr/0002-y.md", "adr", "> Status: Accepted\n> Stable-Id: 01ABC\n");
    assert_eq!(missing_stable_id(&[a, b]), vec!["docs/adr/0001-x.md".to_string()]);
}

#[test]
fn a_stable_id_lands_right_after_the_first_header_line() {
    let content = "# 1 — X\n\n> Status: Accepted\n> Date: 2026-01-01\n";
    let r = record("docs/adr/0001-x.md", "adr", content);
    let (start, _) = r.header.region.unwrap();
    assert_eq!(start, 3);
    assert_eq!(
        with_stable_id(content, start, "01XYZ"),
        "# 1 — X\n\n> Status: Accepted\n> Stable-Id: 01XYZ\n> Date: 2026-01-01\n"
    );
}

#[test]
fn a_backfill_fails_only_on_a_write_failure() {
    let result = |outcome| MigrateIdsResult { record: "a.md".to_string(), outcome, error: None };
    let report = |results| MigrateIdsReport { status: ReportStatus::Clean, apply: true, missing: vec![], results, notices: vec![] };
    assert_eq!(report(vec![result(MigrateIdsOutcome::Applied), result(MigrateIdsOutcome::Skipped)]).exit_code(), 0);
    assert_eq!(report(vec![result(MigrateIdsOutcome::Applied), result(MigrateIdsOutcome::Failed)]).exit_code(), 1);
}

#[test]
fn a_backfill_plans_the_header_start_for_each_record_lacking_an_id_and_skips_headerless_ones() {
    let with_id = record("docs/adr/0001-a.md", "adr", "# A\n\n> Stable-Id: 01ABC\n");
    let lacking = record("docs/adr/0002-b.md", "adr", "# B\n\n> Status: Draft\n> Date: 2026-01-01\n");
    let headerless = record("docs/adr/0003-c.md", "adr", "# C\n\nNo header.\n");
    let plan = stable_id_backfill(&[with_id, lacking, headerless]);
    assert_eq!(
        plan,
        vec![("docs/adr/0002-b.md".to_string(), Some(3)), ("docs/adr/0003-c.md".to_string(), None)]
    );
}
