use urzua::record::Record;
use urzua::report::{new_finding, Finding, FindingSeverity};
use urzua::waiver::{apply_waivers, is_iso_date, load_waivers, Waiver};

fn finding(rule: &str, file: &str) -> Finding {
    new_finding(rule, FindingSeverity::Error, file, None, "x".to_string())
}

#[test]
fn a_waiver_with_lowercase_keys_still_loads_observed_failing() {
    let r = Record::parse(
        "docs/waivers/WAIVER-1-x.md".to_string(),
        "waiver".to_string(),
        "> rule: header.required-fields\n> scope: docs/adr/ADR-1-x.md\n",
    );
    let waivers = load_waivers(&[r]);
    assert_eq!(waivers.len(), 1, "a case-differing key must not drop the waiver");
    assert_eq!(waivers[0].rule, "header.required-fields");
    assert_eq!(waivers[0].scope, "docs/adr/ADR-1-x.md");
}

#[test]
fn a_permanent_waiver_is_always_active() {
    let w = Waiver { id: "w1".into(), rule: "r".into(), scope: "*".into(), expires: None };
    assert!(w.is_active("2020-01-01"));
    assert!(w.is_active("2099-01-01"));
}

#[test]
fn an_expired_waiver_is_not_active() {
    let w = Waiver { id: "w1".into(), rule: "r".into(), scope: "*".into(), expires: Some("2026-01-01".into()) };
    assert!(w.is_active("2025-12-31"));
    assert!(!w.is_active("2026-01-02"));
}

#[test]
fn an_unparseable_expiry_does_not_suppress_observed_failing() {
    for bad in ["soon", "TBD", "Q4", "2026-9-16"] {
        let w = Waiver { id: "w1".into(), rule: "r".into(), scope: "*".into(), expires: Some(bad.into()) };
        assert!(!w.is_active("2026-09-16"), "{bad:?} must not act as a permanent waiver");
    }
}

#[test]
fn a_matching_active_waiver_marks_the_finding_waived_not_removed() {
    let mut findings = vec![finding("field.quality", "docs/adr/0001-x.md")];
    let waivers = vec![Waiver {
        id: "docs/waiver/0001-x.md".into(),
        rule: "field.quality".into(),
        scope: "docs/adr/0001-x.md".into(),
        expires: None,
    }];
    apply_waivers(&mut findings, &waivers, "2026-09-04");
    assert_eq!(findings.len(), 1, "waiving must never remove a finding");
    assert_eq!(findings[0].waived, Some("docs/waiver/0001-x.md".to_string()));
}

#[test]
fn a_wildcard_scope_covers_every_file_for_that_rule() {
    let mut findings = vec![
        finding("field.quality", "docs/adr/0001-x.md"),
        finding("field.quality", "docs/adr/0002-y.md"),
        finding("pointer.resolution", "docs/adr/0002-y.md"),
    ];
    let waivers = vec![Waiver { id: "w1".into(), rule: "field.quality".into(), scope: "*".into(), expires: None }];
    apply_waivers(&mut findings, &waivers, "2026-09-04");
    assert!(findings[0].waived.is_some());
    assert!(findings[1].waived.is_some());
    assert!(findings[2].waived.is_none(), "a different rule must not be covered");
}

#[test]
fn an_expired_waiver_does_not_cover_anything() {
    let mut findings = vec![finding("field.quality", "docs/adr/0001-x.md")];
    let waivers = vec![Waiver {
        id: "w1".into(),
        rule: "field.quality".into(),
        scope: "*".into(),
        expires: Some("2020-01-01".into()),
    }];
    apply_waivers(&mut findings, &waivers, "2026-09-04");
    assert!(findings[0].waived.is_none());
}

#[test]
fn a_waiver_is_active_through_its_expiry_day() {
    let w = Waiver { id: "w".into(), rule: "r".into(), scope: "*".into(), expires: Some("2026-01-01".into()) };
    assert!(w.is_active("2026-01-01"));
}

#[test]
fn an_iso_date_is_judged_by_shape() {
    assert!(is_iso_date("2026-09-16"));
    assert!(!is_iso_date("2026-9-16"));
    assert!(!is_iso_date("2026/09/16"));
}

#[test]
fn a_waiver_scoped_to_another_file_does_not_cover() {
    let mut findings = vec![finding("field.quality", "docs/adr/0001-x.md")];
    let waivers = vec![Waiver { id: "w".into(), rule: "field.quality".into(), scope: "docs/adr/0002-y.md".into(), expires: None }];
    apply_waivers(&mut findings, &waivers, "2026-09-04");
    assert!(findings[0].waived.is_none());
    assert_eq!(findings[0].rule, "field.quality");
}

#[test]
fn a_waiver_without_a_rule_is_not_loaded() {
    let r = Record::parse(
        "docs/waivers/WAIVER-2-y.md".to_string(),
        "waiver".to_string(),
        "> Scope: docs/adr/ADR-1-x.md\n",
    );
    assert!(load_waivers(&[r]).is_empty());
}
