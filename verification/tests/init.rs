use urzua::adopt::proposed_rules;
use urzua::adopt::detect_record_types;
use urzua::adopt::render_config_yaml;
use urzua::adopt::ProposedRecordType;

fn paths(ps: &[&str]) -> Vec<String> {
    ps.iter().map(|p| p.to_string()).collect()
}

#[test]
fn detects_one_type_per_populated_docs_subdirectory() {
    let discovered = paths(&[
        "docs/adr/0001-x.md",
        "docs/adr/0002-y.md",
        "docs/rfc/0001-z.md",
        "README.md",
        "docs/adr/_template.md",
    ]);
    let proposed = detect_record_types(".", &discovered);
    let adr = proposed.iter().find(|p| p.name == "adr").unwrap();
    assert_eq!(adr.record_count, 2);
    assert_eq!(adr.dir, "docs/adr");
    let rfc = proposed.iter().find(|p| p.name == "rfc").unwrap();
    assert_eq!(rfc.record_count, 1);
    assert_eq!(proposed.len(), 2, "README.md and the template must not create a type");
}

#[test]
fn specs_directory_proposes_singular_type_name() {
    let discovered = paths(&["docs/specs/0001-x.md"]);
    let proposed = detect_record_types(".", &discovered);
    assert_eq!(proposed[0].name, "spec");
    assert_eq!(proposed[0].dir, "docs/specs");
}

#[test]
fn every_directory_holding_records_becomes_its_own_type() {
    let discovered = paths(&[
        "docs/adr/0001-a.md",
        "docs/adr/0002-b.md",
        "docs/adr/0003-c.md",
        "docs/adr/archive/0009-old.md",
        "docs/adr/drafts/0010-new.md",
        "docs/rfc/0001-r.md",
    ]);
    let proposed = detect_record_types("/repo", &discovered);
    let mut got: Vec<(String, usize)> = proposed.iter().map(|p| (p.dir.clone(), p.record_count)).collect();
    got.sort();
    assert_eq!(
        got,
        vec![
            ("docs/adr".to_string(), 3),
            ("docs/adr/archive".to_string(), 1),
            ("docs/adr/drafts".to_string(), 1),
            ("docs/rfc".to_string(), 1),
        ]
    );
    assert_eq!(got.iter().map(|(_, n)| n).sum::<usize>(), discovered.len());
}

#[test]
fn a_directory_whose_files_agree_on_a_prefix_proposes_it() {
    let discovered = paths(&["docs/decisions/ADR-1-a.md", "docs/decisions/ADR-2-b.md"]);
    let proposed = detect_record_types(".", &discovered);
    assert_eq!(proposed.len(), 1);
    assert_eq!(proposed[0].name, "decision");
    assert_eq!(proposed[0].prefix, Some("ADR".to_string()));
}

fn proposal(name: &str, dir: &str, record_count: usize, prefix: Option<&str>) -> ProposedRecordType {
    ProposedRecordType {
        name: name.to_string(),
        dir: dir.to_string(),
        record_count,
        prefix: prefix.map(|p| p.to_string()),
    }
}

fn reparse(rendered: &str) -> yaml_serde::Value {
    yaml_serde::from_str::<yaml_serde::Value>(rendered).expect("init must never emit a config it cannot read back")
}

#[test]
fn a_directory_name_full_of_yaml_metacharacters_survives_render_and_reparse_observed_failing() {
    let hostile = "docs: [adr] #x\n  evil: true";
    let rendered = render_config_yaml(&[proposal("adr", hostile, 1, None)]);
    let parsed = reparse(&rendered);
    assert_eq!(parsed["record_types"]["adr"]["dir"].as_str(), Some(hostile));
}

#[test]
fn the_generated_config_omits_rules_that_require_options() {
    let rendered = render_config_yaml(&[proposal("adr", "docs/adr", 1, None)]);
    assert!(!rendered.contains("claim.status-agreement"), "{rendered}");
    assert!(!rendered.contains("pointer.target-status"), "{rendered}");
    let parsed = reparse(&rendered);
    assert_eq!(parsed["schema_version"].as_u64(), Some(2));
}

#[test]
fn the_proposed_rules_omit_rules_that_require_options() {
    let proposed = detect_record_types(".", &paths(&["docs/adr/ADR-1-x.md"]));
    let rules = proposed_rules(&proposed);
    assert!(!rules.contains(&"claim.status-agreement"));
    assert!(!rules.contains(&"pointer.target-status"));
    assert!(rules.contains(&"pointer.resolution"));
}

#[test]
fn rendering_is_deterministic_across_runs() {
    let proposed: Vec<_> = ["adr", "rfc", "spec", "bug", "milestone"]
        .iter()
        .map(|n| proposal(n, &format!("docs/{n}"), 1, None))
        .collect();
    assert_eq!(render_config_yaml(&proposed), render_config_yaml(&proposed));
}

#[test]
fn a_detected_prefix_is_written_so_the_proposed_rules_can_read_an_identity() {
    let proposed = vec![proposal("decision", "decisions", 2, Some("ADR"))];
    let yaml = render_config_yaml(&proposed);
    assert!(
        yaml.contains("prefix: ADR"),
        "without it the prefix defaults to DECISION and every identity rule goes inert: {yaml}"
    );
    assert!(yaml.contains("filename.title-consistency"));
}

#[test]
fn one_prefix_less_type_does_not_disarm_the_types_that_have_a_prefix() {
    let proposed = vec![
        proposal("adr", "docs/adr", 2, Some("ADR")),
        proposal("note", "docs/notes", 1, None),
    ];
    let yaml = render_config_yaml(&proposed);
    assert!(
        yaml.contains("filename.title-consistency"),
        "adr carries a prefix, so the identity rules still address it: {yaml}"
    );
    assert!(yaml.contains("prefix: ADR"));
}

#[test]
fn a_corpus_with_no_prefix_is_not_offered_rules_that_cannot_fire() {
    let proposed = vec![proposal("adr", "doc/adr", 9, None)];
    let yaml = render_config_yaml(&proposed);
    assert!(!yaml.contains("prefix:"), "there is none to declare: {yaml}");
    for rule in [
        "filename.title-consistency",
        "relation.supersession-reciprocity",
        "pointer.resolution",
        "pointer.target-status",
        "narrative-field.stale",
    ] {
        assert!(!yaml.contains(rule), "{rule} would report `ran` over zero records: {yaml}");
    }
    assert!(
        yaml.contains("header.required-fields"),
        "rules that do not read an identity are still proposed: {yaml}"
    );
}

#[test]
fn the_rendered_config_lists_each_type_and_each_rule_at_warn() {
    let yaml = render_config_yaml(&[proposal("adr", "docs/adr", 1, Some("ADR"))]);
    assert!(yaml.starts_with("# Adopted by `urzua init`. Nothing was moved.\n\n"), "{yaml}");
    let parsed = reparse(&yaml);
    assert_eq!(parsed["record_types"]["adr"]["header_shape"].as_str(), Some("yaml-frontmatter"));
    assert_eq!(parsed["record_types"]["adr"]["prefix"].as_str(), Some("ADR"));
    assert_eq!(parsed["rules"]["field.quality"].as_str(), Some("warn"));
}

#[test]
fn identity_rules_are_not_proposed_for_a_corpus_without_prefixes() {
    let proposed = detect_record_types(".", &paths(&["docs/adr/0001-x.md"]));
    assert_eq!(proposed[0].prefix, None);
    let rules = proposed_rules(&proposed);
    assert!(!rules.contains(&"pointer.resolution"));
    assert!(!rules.contains(&"narrative-field.stale"));
    assert!(rules.contains(&"field.quality"));
}
