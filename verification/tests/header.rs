use urzua::header::{header_from_frontmatter, parse, parse_with_shape, HeaderLayout, HeaderShape};
use urzua::yaml::{YamlDocument, YamlValue};

#[test]
fn parses_blockquote_shape() {
    let doc = "# Title\n\n> Status: Draft\n> Date: 2026-08-11\n\n## Summary\n";
    let h = parse(doc);
    assert_eq!(h.get("Status"), Some("Draft"));
    assert_eq!(h.get("Date"), Some("2026-08-11"));
    assert_eq!(h.region, Some((3, 4)));
}

#[test]
fn parses_pipe_delimited_shape() {
    let doc = "# Title\n\n> Version: 0.1 | Date: 2026-08-20 | Status: Draft\n> **Implements:** RFC-0001\n";
    let h = parse(doc);
    assert_eq!(h.get("Version"), Some("0.1"));
    assert_eq!(h.get("Status"), Some("Draft"));
    assert_eq!(h.get("Implements"), Some("RFC-0001"));
}

#[test]
fn a_field_shaped_body_bullet_is_never_the_header() {
    let doc = "# Title\n\n> Status: Draft\n\n## Body\n\n- **Status:** decoy, not the header\n";
    let h = parse(doc);
    assert_eq!(h.get("Status"), Some("Draft"));
    assert_eq!(h.region, Some((3, 3)));
}

#[test]
fn duplicate_keys_are_detected_not_first_wins() {
    let doc = "> Status: Draft\n> Status: Accepted\n";
    let h = parse(doc);
    assert_eq!(h.duplicate_keys(), vec!["Status".to_string()]);
}

#[test]
fn no_header_shaped_region_is_none_not_empty() {
    let doc = "# Title\n\nJust prose, no metadata block.\n";
    let h = parse(doc);
    assert_eq!(h.region, None);
    assert!(h.fields.is_empty());
}

#[test]
fn parses_bold_list_shape() {
    let doc = "# Title\n\n> **Decision:** some prose.\n\n- **Status:** Accepted\n- **Date:** 2026-08-14\n- **Deciders:** A B\n\n## Context\n";
    let h = parse_with_shape(doc, HeaderShape::BoldList);
    assert_eq!(h.get("Status"), Some("Accepted"));
    assert_eq!(h.get("Date"), Some("2026-08-14"));
    assert_eq!(h.get("Deciders"), Some("A B"));
    assert_eq!(h.region, Some((5, 7)));
}

#[test]
fn bold_list_shape_does_not_recognize_a_blockquote_header() {
    let doc = "# Title\n\n> Status: Draft\n> Date: 2026-08-11\n";
    let h = parse_with_shape(doc, HeaderShape::BoldList);
    assert_eq!(h.region, None);
    assert!(h.fields.is_empty());
}

#[test]
fn blockquote_shape_is_the_default_when_unspecified() {
    let doc = "# Title\n\n> Status: Draft\n";
    assert_eq!(parse(doc), parse_with_shape(doc, HeaderShape::Blockquote));
}

#[test]
fn a_header_records_the_layout_it_used() {
    assert_eq!(parse("> Status: Draft\n> Date: x\n").layout(), Some(HeaderLayout::OnePerLine));
    assert_eq!(parse("> Status: Draft | Date: x\n").layout(), Some(HeaderLayout::PipeDelimited));
    assert_eq!(parse("no header\n").layout(), None);
}

#[test]
fn a_headerless_type_reads_no_fields() {
    let h = parse_with_shape("> Status: Draft\n", HeaderShape::Headerless);
    assert!(h.fields.is_empty());
    assert_eq!(h.region, None);
}

#[test]
fn a_field_line_records_its_line_number_and_trimmed_value() {
    let h = parse("# T\n> Status:   Draft  \n");
    assert_eq!(h.fields.len(), 1);
    assert_eq!(h.fields[0].key, "Status");
    assert_eq!(h.fields[0].value, "Draft");
    assert_eq!(h.fields[0].line, 2);
}

fn frontmatter_lines() -> Vec<Vec<char>> {
    ["---", "Status: Draft", "Count: 3", "Tags: [a]", "---", "# Title"]
        .iter()
        .map(|l| l.chars().collect())
        .collect()
}

#[test]
fn a_parsed_frontmatter_mapping_gives_its_scalar_fields_and_the_fenced_region() {
    let ls = frontmatter_lines();
    let doc = YamlDocument::Mapping(vec![
        (Some("Status".to_string()), YamlValue::Text("Draft".to_string())),
        (Some("Count".to_string()), YamlValue::Number("3".to_string())),
        (Some("Tags".to_string()), YamlValue::Nested),
        (None, YamlValue::Bool(true)),
    ]);
    let h = header_from_frontmatter(&ls, 4, Ok(doc));
    assert_eq!(h.fields.len(), 2);
    assert_eq!(h.fields[0].key, "Status");
    assert_eq!(h.fields[0].value, "Draft");
    assert_eq!(h.fields[0].line, 2);
    assert_eq!(h.fields[1].key, "Count");
    assert_eq!(h.fields[1].value, "3");
    assert_eq!(h.fields[1].line, 3);
    assert_eq!(h.region, Some((1, 5)));
    assert_eq!(h.parse_error, None);
    assert_eq!(h.layout, None);
}

#[test]
fn a_frontmatter_the_parser_refused_keeps_its_message_and_no_region() {
    let ls = frontmatter_lines();
    let h = header_from_frontmatter(&ls, 4, Err("bad indentation".to_string()));
    assert!(h.fields.is_empty());
    assert_eq!(h.region, None);
    assert_eq!(h.parse_error.as_deref(), Some("bad indentation"));
}

#[test]
fn a_frontmatter_that_is_not_a_mapping_is_reported_as_such() {
    let ls = frontmatter_lines();
    let h = header_from_frontmatter(&ls, 4, Ok(YamlDocument::Other));
    assert!(h.fields.is_empty());
    assert_eq!(h.region, None);
    assert_eq!(h.parse_error.as_deref(), Some("frontmatter is not a YAML mapping of fields"));
    let empty = header_from_frontmatter(&ls, 4, Ok(YamlDocument::Null));
    assert!(empty.fields.is_empty());
    assert_eq!(empty.region, Some((1, 5)));
    assert_eq!(empty.parse_error, None);
}

#[test]
fn a_line_header_has_a_region_exactly_when_it_has_fields_each_tidy_and_in_order() {
    let doc = "# Title\n\n>  Status :  Draft | Date: 2026-08-11\n> **Owner:**   ana  \n\nBody\n";
    let h = parse(doc);
    let (s, e) = h.region.expect("a region");
    assert_eq!((s, e), (3, 4));
    assert_eq!(h.fields.len(), 3);
    for w in h.fields.windows(2) {
        assert!(w[0].line <= w[1].line);
    }
    for f in &h.fields {
        assert!(s <= f.line && f.line <= e);
        assert!(!f.key.is_empty());
        assert_eq!(f.key.trim(), f.key);
        assert_eq!(f.value.trim(), f.value);
    }
    assert_eq!(h.fields[0].key, "Status");
    assert_eq!(h.fields[0].value, "Draft");
    assert_eq!(h.fields[2].key, "Owner");
    assert_eq!(h.fields[2].value, "ana");

    let none = parse("# Title\n\nNo header here.\n>  : no key\n");
    assert_eq!(none.region, None);
    assert!(none.fields.is_empty());
}
