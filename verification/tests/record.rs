use urzua::record::{is_governed_record_filename, Record};

#[test]
fn a_leading_underscore_is_a_template_not_a_record() {
    assert!(!is_governed_record_filename("_template.md"));
}

#[test]
fn a_non_markdown_file_is_not_a_record() {
    assert!(!is_governed_record_filename("README"));
    assert!(!is_governed_record_filename("notes.txt"));
}

#[test]
fn an_unnumbered_markdown_file_is_still_governed() {
    assert!(is_governed_record_filename("README.md"));
}

#[test]
fn a_record_takes_its_prefix_from_its_type_uppercased() {
    let r = Record::parse("docs/adr/ADR-0003-x.md".to_string(), "adr".to_string(), "> Status: Accepted\n");
    assert_eq!(r.type_prefix, "ADR");
    assert_eq!(r.header.get("Status"), Some("Accepted"));
    assert_eq!(r.id(), Some("ADR-0003".to_string()));
    assert_eq!(r.filename_number(), Some(vec!['0', '0', '0', '3']));
}

#[test]
fn an_unnumbered_record_has_no_id() {
    let r = Record::parse("docs/adr/README.md".to_string(), "adr".to_string(), "");
    assert_eq!(r.id(), None);
}
