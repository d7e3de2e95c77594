use urzua::values::{FieldName, RecordId};

#[test]
fn field_name_compares_exactly() {
    assert_eq!(FieldName::new("Status"), FieldName::new("Status"));
    assert_ne!(FieldName::new("Status"), FieldName::new("status"));
}

#[test]
fn record_id_compares_by_numeric_value() {
    assert_eq!(RecordId::new("ADR-0034"), RecordId::new("ADR-34"));
    assert_ne!(RecordId::new("ADR-34"), RecordId::new("ADR-35"));
}

#[test]
fn record_id_display_shows_the_normalized_form() {
    assert_eq!(RecordId::new("ADR-0034").as_str(), "ADR-34");
}

#[test]
fn record_id_falls_back_to_the_original_string_when_unparseable() {
    assert_eq!(RecordId::new("not-an-id-at-all").as_str(), "not-an-id-at-all");
}

#[test]
fn record_id_compares_by_numeric_value_with_a_hyphenated_prefix_observed_failing() {
    assert_eq!(RecordId::new("DOC-ADR-02"), RecordId::new("DOC-ADR-2"));
}

#[test]
fn record_id_same_agrees_with_equality() {
    assert!(RecordId::new("ADR-0001").same(&RecordId::new("ADR-1")));
    assert!(!RecordId::new("ADR-1").same(&RecordId::new("RFC-1")));
}

#[test]
fn normalizing_twice_changes_nothing() {
    let once = RecordId::new("ADR-0007");
    let twice = RecordId::new(once.as_str());
    assert_eq!(once, twice);
    assert_eq!(twice.as_str(), "ADR-7");
}

#[test]
fn an_id_without_a_hyphen_is_kept_as_written() {
    assert_eq!(RecordId::new("0034").as_str(), "0034");
    assert_eq!(RecordId::new("ADR-").as_str(), "ADR-");
}
