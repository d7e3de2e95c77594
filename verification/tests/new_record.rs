use urzua::new_record::new_record_filename;
use urzua::new_record::compose_new_record;
use urzua::header::{parse_with_shape, HeaderShape};
use urzua::new_record::{
    frame_synthetic_yaml, next_display_number, parse_record_filename, render_from_template, render_synthetic_yaml,
    slugify, template_body, NewRecordParams,
};

fn some(prefix: Option<&str>, n: u32) -> Option<(Option<String>, u32)> {
    Some((prefix.map(|p| p.to_string()), n))
}

#[test]
fn render_from_template_fills_number_title_date_author_and_stable_id() {
    let template = "# NNNN — Title\n\n> Status: Proposed\n> Date: YYYY-MM-DD\n> Author: name\n";
    let params = NewRecordParams {
        display_number: 42,
        title: "Use a real title",
        stable_id: "01ABC",
        author: "beau",
        today: "2026-09-06",
    };
    let result = render_from_template(template, &params);
    assert!(result.contains("# 42 — Use a real title"));
    assert!(result.contains("> Date: 2026-09-06"));
    assert!(result.contains("> Author: beau"));
    assert!(result.contains("> Stable-Id: 01ABC"));
}

#[test]
fn render_from_template_does_not_touch_an_nnnn_placeholder_outside_the_h1() {
    let template = "# NNNN — Title\n\n> Derives-from: RFC-NNNN (optional)\n> Author: name\n";
    let params = NewRecordParams { display_number: 28, title: "X", stable_id: "01ABC", author: "beau", today: "2026-09-06" };
    let result = render_from_template(template, &params);
    assert!(result.contains("# 28 — X"));
    assert!(result.contains("> Derives-from: RFC-NNNN (optional)"));
}

#[test]
fn render_from_template_preserves_status_choices_untouched() {
    let template = "# NNNN — Title\n\n> Status: Proposed | Accepted | Rejected\n";
    let params = NewRecordParams { display_number: 1, title: "X", stable_id: "01ABC", author: "beau", today: "2026-09-06" };
    let result = render_from_template(template, &params);
    assert!(result.contains("> Status: Proposed | Accepted | Rejected"));
}

#[test]
fn next_display_number_skips_past_the_highest_existing_prefix() {
    let filenames = vec![
        "ADR-1-first.md".to_string(),
        "ADR-16-a-bold-list-header-shape.md".to_string(),
        "ADR-9-ninth.md".to_string(),
    ];
    assert_eq!(next_display_number(&filenames), 17);
}

#[test]
fn next_display_number_counts_both_filename_conventions() {
    let mixed = vec!["0012-legacy.md".to_string(), "ADR-9-ninth.md".to_string()];
    assert_eq!(next_display_number(&mixed), 13);
    let nygard_only = vec!["0001-record-architecture-decisions.md".to_string(), "0009-help-scripts.md".to_string()];
    assert_eq!(next_display_number(&nygard_only), 10);
}

#[test]
fn a_hyphenated_type_prefix_parses_observed_failing() {
    assert_eq!(parse_record_filename("DOC-ADR-2-first-thing.md"), some(Some("DOC-ADR"), 2));
    assert_eq!(parse_record_filename("ADR-2-x.md"), some(Some("ADR"), 2));
    assert_eq!(parse_record_filename("doc-ADR-2-x.md"), None);
    assert_eq!(parse_record_filename("DOC-ADR-2.md"), None);
    let names = vec!["DOC-ADR-1-a.md".to_string(), "DOC-ADR-7-b.md".to_string()];
    assert_eq!(next_display_number(&names), 8);
}

#[test]
fn a_date_named_file_is_not_a_record_number_observed_failing() {
    assert_eq!(parse_record_filename("2026-09-19-meeting-notes.md"), None);
    assert_eq!(parse_record_filename("1999-01-01-x.md"), None);
    assert_eq!(parse_record_filename("2026-9-19-meeting-notes.md"), None);
    assert_eq!(parse_record_filename("2026-slug.md"), some(None, 2026));
    assert_eq!(parse_record_filename("0013-80-20-rule.md"), some(None, 13));
    assert_eq!(parse_record_filename("0013-01-15-use-postgres.md"), some(None, 13));
    assert_eq!(parse_record_filename("0001-record-architecture.md"), some(None, 1));
    let mixed = vec!["ADR-1-x.md".to_string(), "2026-09-19-meeting-notes.md".to_string()];
    assert_eq!(next_display_number(&mixed), 2);
}

#[test]
fn parse_record_filename_reads_both_conventions_and_rejects_neither_shape() {
    assert_eq!(parse_record_filename("0001-slug.md"), some(None, 1));
    assert_eq!(parse_record_filename("7-slug.md"), some(None, 7));
    assert_eq!(parse_record_filename("ADR-12-slug.md"), some(Some("ADR"), 12));
    assert_eq!(parse_record_filename("0001.md"), None);
    assert_eq!(parse_record_filename("ADR-12.md"), None);
    assert_eq!(parse_record_filename("-999-slug.md"), None);
    assert_eq!(parse_record_filename("ADR-999"), None);
    assert_eq!(parse_record_filename("notes.md"), None);
}

#[test]
fn next_display_number_rejects_a_malformed_directory_entry_observed_failing() {
    let filenames = vec!["ADR-999".to_string(), "-999-slug.md".to_string(), "ADR-8-real.md".to_string()];
    assert_eq!(next_display_number(&filenames), 9);
}

#[test]
fn next_display_number_starts_at_one_for_an_empty_directory() {
    assert_eq!(next_display_number(&[]), 1);
}

#[test]
fn slugify_lowercases_and_hyphenates_punctuation() {
    assert_eq!(
        slugify("A Bold-List Header Shape, Declared Per Profile"),
        "a-bold-list-header-shape-declared-per-profile"
    );
}

#[test]
fn template_body_starts_at_the_first_section_heading() {
    let template = "# NNNN — Title\n\n> Status: Planned\n> Phase: 0\n\n## What\n\nDeliver X.\n\n## Why\n\nBecause Y.\n";
    let body = template_body(template).unwrap();
    assert!(body.starts_with("## What"));
    assert!(body.contains("## Why"));
    assert!(!body.contains("Status: Planned"));
}

#[test]
fn template_body_is_none_without_a_section_heading() {
    assert_eq!(template_body("# NNNN — Title\n\n> Status: Planned\n"), None);
}

#[test]
fn slugify_collapses_runs_and_trims_separators() {
    assert_eq!(slugify("  Hello,   World!  "), "hello-world");
    assert_eq!(slugify("---"), "");
}

#[test]
fn a_stable_id_line_follows_the_title_when_the_template_has_none() {
    let template = "# NNNN — Title\n\n> Status: Proposed\n";
    let params = NewRecordParams { display_number: 3, title: "T", stable_id: "01XYZ", author: "a", today: "2026-01-01" };
    let result = render_from_template(template, &params);
    assert!(result.starts_with("# 3 — T\n"));
    assert!(result.contains("> Stable-Id: 01XYZ"));
}

#[test]
fn render_synthetic_yaml_lists_required_fields_as_blank() {
    let params = NewRecordParams { display_number: 1, title: "X", stable_id: "01ABC", author: "beau", today: "2026-09-06" };
    let required = vec!["Status".to_string(), "Severity".to_string()];
    let result = render_synthetic_yaml(&params, &required);
    assert!(result.starts_with("---\n"));
    assert!(result.contains("Status: null\n"));
    assert!(result.contains("Severity: null\n"));
    assert!(result.contains("# 1 — X"));
}

#[test]
fn render_synthetic_yaml_escapes_a_value_with_an_embedded_colon() {
    let params = NewRecordParams { display_number: 4, title: "X", stable_id: "01ABC", author: "Doe, J: Platform", today: "2026-09-06" };
    let result = render_synthetic_yaml(&params, &["Author".to_string()]);
    let header = parse_with_shape(&result, HeaderShape::YamlFrontmatter);
    assert_eq!(header.get("Author"), Some("Doe, J: Platform"));
}

#[test]
fn render_synthetic_yaml_round_trips_a_numeric_looking_string() {
    let params = NewRecordParams { display_number: 1, title: "X", stable_id: "01ABC", author: "0.2", today: "2026-09-06" };
    let result = render_synthetic_yaml(&params, &["Author".to_string()]);
    let header = parse_with_shape(&result, HeaderShape::YamlFrontmatter);
    assert_eq!(header.get("Author"), Some("0.2"));
}

#[test]
fn framing_drops_the_serializer_document_marker_and_adds_the_title() {
    let params = NewRecordParams { display_number: 12, title: "T", stable_id: "s", author: "a", today: "d" };
    assert_eq!(frame_synthetic_yaml("---\nA: b\n", &params), "---\nA: b\n---\n# 12 — T\n");
    assert_eq!(frame_synthetic_yaml("A: b", &params), "---\nA: b\n---\n# 12 — T\n");
    assert_eq!(frame_synthetic_yaml("", &params), "---\n---\n# 12 — T\n");
}

#[test]
fn a_synthesized_record_fills_date_and_author_and_carries_its_stable_id() {
    let params = NewRecordParams { display_number: 2, title: "Y", stable_id: "01XYZ", author: "beau", today: "2026-09-06" };
    let result = render_synthetic_yaml(&params, &["Date".to_string(), "Author".to_string(), "Status".to_string()]);
    let header = parse_with_shape(&result, HeaderShape::YamlFrontmatter);
    assert_eq!(header.get("Stable-Id"), Some("01XYZ"));
    assert_eq!(header.get("Date"), Some("2026-09-06"));
    assert_eq!(header.get("Author"), Some("beau"));
    assert!(result.ends_with("---\n# 2 — Y\n"));
}

#[test]
fn a_new_record_filename_carries_the_prefix_and_the_unpadded_number() {
    assert_eq!(new_record_filename("MILE", 7, "Ship the thing!"), "MILE-7-ship-the-thing.md");
    assert_eq!(new_record_filename("ADR", 12, "A Bold-List Header"), "ADR-12-a-bold-list-header.md");
}

#[test]
fn a_yaml_type_gets_synthesized_frontmatter_and_the_template_body() {
    let params = NewRecordParams { display_number: 3, title: "Z", stable_id: "01Q", author: "a", today: "2026-01-01" };
    let template = "# NNNN — Title\n\n> Status: Planned\n\n## What\n\nDeliver X.\n";
    let content = compose_new_record(HeaderShape::YamlFrontmatter, &params, &[], Some(template)).unwrap();
    assert!(content.starts_with("---\n"));
    assert!(content.contains("# 3 — Z\n\n## What\n\nDeliver X.\n"));
    assert!(!content.contains("> Status: Planned"));
    assert!(compose_new_record(HeaderShape::Blockquote, &params, &[], None).is_none());
    let rendered = compose_new_record(HeaderShape::Blockquote, &params, &[], Some(template)).unwrap();
    assert!(rendered.starts_with("# 3 — Z\n"));
}

#[test]
fn a_slug_is_its_own_slug() {
    let s = slugify("A Bold-List Header Shape, Declared Per Profile");
    assert_eq!(s, "a-bold-list-header-shape-declared-per-profile");
    assert_eq!(slugify(&s), s);
    assert_eq!(slugify(&slugify("  --Weird__Title!! 42 ")), slugify("  --Weird__Title!! 42 "));
}
