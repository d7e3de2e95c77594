use urzua::graph::{explain, graph, RelationKind};
use urzua::record::Record;

fn record(path: &str, record_type: &str, content: &str) -> Record {
    Record::parse(path.to_string(), record_type.to_string(), content)
}

fn field_map(entries: &[(&str, &[&str])]) -> Vec<(String, Vec<String>)> {
    entries
        .iter()
        .map(|(kind, fields)| (kind.to_string(), fields.iter().map(|f| f.to_string()).collect()))
        .collect()
}

#[test]
fn explain_finds_a_record_whose_realized_by_names_the_path() {
    let r = record("docs/adr/0001-x.md", "adr", "> Realized-by: code:rust/src/lib.rs\n");
    let result = explain(&[r], "rust/src/lib.rs");
    assert_eq!(result.len(), 1);
    assert_eq!(result[0].via, "code");
}

#[test]
fn explain_finds_nothing_for_an_ungoverned_path() {
    let r = record("docs/adr/0001-x.md", "adr", "> Realized-by: code:rust/src/lib.rs\n");
    assert!(explain(&[r], "rust/src/other.rs").is_empty());
}

#[test]
fn graph_includes_a_resolving_implements_edge_not_dangling() {
    let target = record("docs/rfc/RFC-1-x.md", "rfc", "> Status: Accepted\n");
    let source = record("docs/adr/ADR-1-y.md", "adr", "> Implements: RFC-1\n");
    let pointer_fields = field_map(&[("adr", &["Implements"])]);
    let edges = graph(&[target, source], &pointer_fields, &Vec::new());
    assert_eq!(edges.len(), 1);
    assert_eq!(edges[0].to, "RFC-1");
    assert_eq!(edges[0].kind, RelationKind::Pointer);
    assert!(!edges[0].dangling);
}

#[test]
fn graph_marks_a_non_resolving_reference_as_dangling_observed_failing() {
    let source = record("docs/adr/ADR-1-y.md", "adr", "> Implements: RFC-9999\n");
    let pointer_fields = field_map(&[("adr", &["Implements"])]);
    let edges = graph(&[source], &pointer_fields, &Vec::new());
    assert_eq!(edges.len(), 1);
    assert!(edges[0].dangling);
}

#[test]
fn graph_resolves_a_padded_reference_against_an_unpadded_filename_observed_failing() {
    let target = record("docs/rfc/RFC-1-x.md", "rfc", "> Status: Accepted\n");
    let source = record("docs/adr/ADR-1-y.md", "adr", "> Implements: RFC-0001\n");
    let pointer_fields = field_map(&[("adr", &["Implements"])]);
    let edges = graph(&[target, source], &pointer_fields, &Vec::new());
    assert_eq!(edges.len(), 1);
    assert!(!edges[0].dangling, "unexpected dangling edge: {:?}", edges[0]);
}

#[test]
fn graph_includes_a_parent_edge() {
    let target = record("docs/specs/SPEC-1-x.md", "spec", "> Status: Accepted\n");
    let source = record("docs/specs/SPEC-2-y.md", "spec", "> Parent: SPEC-1\n");
    let pointer_fields = field_map(&[("spec", &["Parent"])]);
    let edges = graph(&[target, source], &pointer_fields, &Vec::new());
    assert_eq!(edges.len(), 1);
    assert_eq!(edges[0].relation, "Parent");
    assert!(!edges[0].dangling);
}

#[test]
fn graph_includes_a_narrative_edge_kinded_correctly() {
    let bug = record("docs/bugs/BUG-1-x.md", "bug", "> Status: Open\n");
    let milestone = record("docs/milestones/MILESTONE-1-y.md", "milestone", "> Blocked-on: BUG-1\n");
    let narrative_fields = field_map(&[("milestone", &["Blocked-on"])]);
    let edges = graph(&[bug, milestone], &Vec::new(), &narrative_fields);
    assert_eq!(edges.len(), 1);
    assert_eq!(edges[0].kind, RelationKind::Narrative);
}

#[test]
fn graph_reports_supersedes_as_pointer_kind() {
    let old = record("docs/adr/ADR-1-x.md", "adr", "> Status: Superseded\n");
    let new = record("docs/adr/ADR-2-y.md", "adr", "> Supersedes / Superseded-by: ADR-1\n");
    let edges = graph(&[old, new], &Vec::new(), &Vec::new());
    assert_eq!(edges.len(), 1);
    assert_eq!(edges[0].kind, RelationKind::Pointer);
}

#[test]
fn a_config_that_also_declares_supersedes_does_not_duplicate_the_edge_observed_failing() {
    let old = record("docs/adr/ADR-1-x.md", "adr", "> Status: Superseded\n");
    let new = record("docs/adr/ADR-2-y.md", "adr", "> Supersedes / Superseded-by: ADR-1\n");
    let pointer_fields = field_map(&[("adr", &["Supersedes / Superseded-by"])]);
    let edges = graph(&[old, new], &pointer_fields, &Vec::new());
    assert_eq!(edges.len(), 1, "unexpected edges: {edges:?}");
    assert_eq!(edges[0].kind, RelationKind::Pointer);
}

#[test]
fn explain_names_the_record_and_its_type() {
    let r = record("docs/adr/0001-x.md", "adr", "> Realized-by: spec:docs/s.md, test:tests/t.rs\n");
    let result = explain(&[r], "tests/t.rs");
    assert_eq!(result.len(), 1);
    assert_eq!(result[0].record, "docs/adr/0001-x.md");
    assert_eq!(result[0].record_type, "adr");
    assert_eq!(result[0].via, "test");
}

#[test]
fn a_relation_kind_prints_its_name() {
    assert_eq!(RelationKind::Pointer.as_str(), "pointer");
    assert_eq!(RelationKind::Narrative.as_str(), "narrative");
}
