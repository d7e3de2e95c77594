use urzua::config::{Config, RecordTypeConfig};
use urzua::corpus::{discover_tracked_files, drift_candidates, load_record, record_files, scope_source, scope_to_requested_paths, DiscoverySource};
use urzua::report::ScopeSource;
use urzua::header::HeaderShape;

fn type_config(dir: &str, prefix: Option<&str>, shape: HeaderShape) -> RecordTypeConfig {
    RecordTypeConfig {
        dir: dir.to_string(),
        required_fields: Vec::new(),
        header_shape: shape,
        prefix: prefix.map(|p| p.to_string()),
        header_layout: None,
        known_fields: None,
        pointer_fields: None,
        narrative_fields: None,
        spec: None,
        relation_fields: None,
    }
}

fn config() -> Config {
    Config {
        schema_version: 2,
        rules: Vec::new(),
        record_types: vec![
            ("adr".to_string(), type_config("docs/adr", None, HeaderShape::Blockquote)),
            ("milestone".to_string(), type_config("docs/milestones", Some("MILE"), HeaderShape::YamlFrontmatter)),
        ],
    }
}

fn paths(ps: &[&str]) -> Vec<String> {
    ps.iter().map(|p| p.to_string()).collect()
}

#[test]
fn a_type_owns_the_governed_files_directly_in_its_directory() {
    let discovered = paths(&[
        "docs/adr/ADR-1-x.md",
        "docs/adr/_template.md",
        "docs/adr/archive/ADR-0-old.md",
        "docs/adr/notes.txt",
        "docs/milestones/MILE-1-m.md",
        "README.md",
    ]);
    let files = record_files(&config(), &discovered);
    let got: Vec<(&str, &str, &str)> =
        files.iter().map(|f| (f.path.as_str(), f.record_type.as_str(), f.type_prefix.as_str())).collect();
    assert_eq!(
        got,
        vec![("docs/adr/ADR-1-x.md", "adr", "ADR"), ("docs/milestones/MILE-1-m.md", "milestone", "MILE")]
    );
    assert_eq!(files[1].shape, HeaderShape::YamlFrontmatter);
}

#[test]
fn a_loaded_record_keeps_its_file_identity() {
    let files = record_files(&config(), &paths(&["docs/adr/ADR-3-x.md"]));
    let r = load_record(&files[0], "> Status: Draft\n");
    assert_eq!(r.path, "docs/adr/ADR-3-x.md");
    assert_eq!(r.type_prefix, "ADR");
    assert_eq!(r.header.get("Status"), Some("Draft"));
}

#[test]
fn a_requested_scope_narrows_by_whole_components() {
    let discovered = paths(&["docs/adr/ADR-1-x.md", "docs/adrs/ADR-2-y.md", "docs/rfc/RFC-1-z.md"]);
    assert_eq!(scope_to_requested_paths(&discovered, &paths(&["docs/adr"])), paths(&["docs/adr/ADR-1-x.md"]));
    assert_eq!(scope_to_requested_paths(&discovered, &Vec::new()), discovered);
    assert_eq!(
        scope_to_requested_paths(&discovered, &paths(&["docs/rfc/RFC-1-z.md", "docs/adrs"])),
        paths(&["docs/adrs/ADR-2-y.md", "docs/rfc/RFC-1-z.md"])
    );
}

#[test]
fn a_record_with_a_written_locator_field_is_a_drift_candidate() {
    let files = record_files(&config(), &paths(&["docs/adr/ADR-1-x.md", "docs/adr/ADR-2-y.md"]));
    let a = load_record(&files[0], "> Status: Draft\n> Realized-by: code:src/a.rs, test:tests/a.rs\n");
    let b = load_record(&files[1], "> Status: Draft\n");
    let candidates = drift_candidates(&[a, b], &config());
    assert_eq!(candidates.len(), 1);
    assert_eq!(candidates[0].0, "docs/adr/ADR-1-x.md");
    assert_eq!(candidates[0].1, 2);
    assert_eq!(candidates[0].2, paths(&["src/a.rs", "tests/a.rs"]));
}

#[test]
fn discovered_paths_merge_both_listings_sorted_and_once_each() {
    let listed = "docs/b.md\ndocs/a.md\n\nREADME.md\n";
    let staged = "docs/c.md\ndocs/a.md\n";
    let found = discover_tracked_files(listed, staged);
    assert_eq!(found.paths, vec!["README.md", "docs/a.md", "docs/b.md", "docs/c.md"]);
    assert_eq!(found.source, DiscoverySource::GitTracked);
    assert_eq!(scope_source(found.source), ScopeSource::TrackedSweep);
}

#[test]
fn empty_listings_discover_nothing() {
    assert!(discover_tracked_files("", "").paths.is_empty());
    assert!(discover_tracked_files("\n\n", "\n").paths.is_empty());
}

#[test]
fn discovery_lists_paths_in_path_order_each_path_once() {
    let found = discover_tracked_files("docs/adr-old/x.md\ndocs/adr/y.md\n", "docs/adr/y.md/\ndocs/adr/a/z.md\n");
    assert_eq!(
        found.paths,
        vec!["docs/adr/a/z.md".to_string(), "docs/adr/y.md".to_string(), "docs/adr-old/x.md".to_string()]
    );
}
