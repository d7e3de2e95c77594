use urzua::config::{Config, RecordTypeConfig, RelationFields};
use urzua::header::{HeaderLayout, HeaderShape};
use urzua::record::Record;
use urzua::references::{build_normalized_index, extract_references, is_record_reference, scan_references};
use urzua::report::{FindingSeverity, Population, PopulationUnit, RuleExecution, RuleStatus};
use urzua::rules::{
    claim_status_agreement, claimed_closed, compute_embodiment, config_header_none_has_no_required_fields,
    config_known_fields_declaration_missing, config_pointer_declaration_missing, config_pointer_field_not_known,
    config_pointer_narrative_overlap, config_relation_field_not_known, config_scope_matches_nothing,
    embodiment_consistency, embodiment_locator_exists, embodiment_locator_promotion_candidate, field_pending,
    field_quality, field_untrimmed_value, filename_title_consistency, header_deprecated_shape,
    header_field_case_mismatch, header_field_set_consistency, header_layout_consistency,
    header_pointer_field_clean, header_required_fields, narrative_field_stale, near_miss, parse_realized_by,
    pointer_resolution, pointer_target_status, realized_by_locator_paths, relation_target_status_undeclared,
    revision_log_change_class, supersession_reciprocity, type_dir_matches_nothing, type_no_declared_spec,
    type_record_outside_declared_dir,
    RULE_CONFIG_SCOPE_MATCHES_NOTHING,
};

const CONFIG_PATH: &str = ".urzua/config.yaml";

fn record(path: &str, record_type: &str, content: &str) -> Record {
    Record::parse(path.to_string(), record_type.to_string(), content)
}

fn record_with_prefix(path: &str, record_type: &str, prefix: &str, content: &str) -> Record {
    Record::parse_with_shape_and_prefix(
        path.to_string(),
        record_type.to_string(),
        content,
        HeaderShape::default(),
        prefix.to_string(),
    )
}

fn config_with_types(entries: Vec<(&str, RecordTypeConfig)>) -> Config {
    Config {
        schema_version: 2,
        rules: Vec::new(),
        record_types: entries.into_iter().map(|(n, t)| (n.to_string(), t)).collect(),
    }
}

fn type_config(spec: Option<&str>) -> RecordTypeConfig {
    RecordTypeConfig {
        dir: "docs/x".to_string(),
        required_fields: Vec::new(),
        header_shape: HeaderShape::default(),
        prefix: None,
        header_layout: None,
        known_fields: None,
        pointer_fields: None,
        narrative_fields: None,
        spec: spec.map(|s| s.to_string()),
        relation_fields: None,
    }
}

fn type_config_with_shape(shape: HeaderShape) -> RecordTypeConfig {
    RecordTypeConfig { header_shape: shape, ..type_config(None) }
}

fn strings(v: &[&str]) -> Vec<String> {
    v.iter().map(|s| s.to_string()).collect()
}

fn type_config_pointer(
    required_fields: &[&str],
    known_fields: Option<&[&str]>,
    pointer_fields: Option<&[&str]>,
    narrative_fields: Option<&[&str]>,
) -> RecordTypeConfig {
    RecordTypeConfig {
        required_fields: strings(required_fields),
        known_fields: known_fields.map(strings),
        pointer_fields: pointer_fields.map(strings),
        narrative_fields: narrative_fields.map(strings),
        ..type_config(None)
    }
}

fn config_for_required(entries: Vec<(&str, Vec<&str>)>) -> Config {
    config_with_types(
        entries
            .into_iter()
            .map(|(name, fields)| (name, RecordTypeConfig { required_fields: strings(&fields), ..type_config(None) }))
            .collect(),
    )
}

fn config_for_known(entries: Vec<(&str, Vec<&str>)>) -> Config {
    config_with_types(
        entries
            .into_iter()
            .map(|(name, fields)| (name, RecordTypeConfig { known_fields: Some(strings(&fields)), ..type_config(None) }))
            .collect(),
    )
}

fn config_for_layout(entries: Vec<(&str, HeaderLayout)>) -> Config {
    config_with_types(
        entries
            .into_iter()
            .map(|(name, layout)| (name, RecordTypeConfig { header_layout: Some(layout), ..type_config(None) }))
            .collect(),
    )
}

fn embodiment_config() -> Config {
    config_with_types(vec![("adr", type_config_pointer(&[], Some(&["Embodiment", "Realized-by"]), None, None))])
}

fn relation(fields: RelationFields, base: RecordTypeConfig) -> RecordTypeConfig {
    RecordTypeConfig { relation_fields: Some(fields), ..base }
}

fn status_named(name: &str) -> RelationFields {
    RelationFields { status: Some(name.to_string()), ..Default::default() }
}

fn examined(exec: &RuleExecution) -> usize {
    exec.population.as_ref().expect("every rule carries a population").examined()
}

fn unreadable(exec: &RuleExecution) -> usize {
    exec.population.as_ref().expect("every rule carries a population").unreadable()
}

fn terminal_for_tests() -> Vec<String> {
    strings(&["Fixed", "WontFix", "Accepted", "Rejected", "Superseded", "Done", "WontDo"])
}

fn yaml_record(path: &str, content: &str) -> (Record, Vec<(String, String)>) {
    let r = Record::parse_with_shape(path.to_string(), "adr".to_string(), content, HeaderShape::YamlFrontmatter);
    let full_text = vec![(r.path.clone(), content.to_string())];
    (r, full_text)
}

fn text_of(r: &Record, content: &str) -> Vec<(String, String)> {
    vec![(r.path.clone(), content.to_string())]
}

fn chars(s: &str) -> Vec<char> {
    s.chars().collect()
}

fn texts(v: Vec<Vec<char>>) -> Vec<String> {
    v.into_iter().map(|cs| cs.into_iter().collect()).collect()
}

fn claimed(line: &str) -> Vec<String> {
    texts(claimed_closed(&chars(line)))
}

fn scanned(line: &str) -> Vec<String> {
    texts(scan_references(&chars(line)))
}

fn exec_with(rule: &str, eligible: usize, examined: usize, out_of_scope: usize) -> RuleExecution {
    RuleExecution {
        rule: rule.to_string(),
        population: Some(Population::detailed(PopulationUnit::Record, eligible, examined, out_of_scope, 0)),
        status: RuleStatus::Ran,
        examined_records: Vec::new(),
    }
}

#[test]
fn narrative_field_stale_judges_a_type_the_engine_has_never_heard_of() {
    let blocked = record("docs/decisions/DEC-1-x.md", "dec", "> Blocked-on: DEC-2\n");
    let target = record("docs/decisions/DEC-2-y.md", "dec", "> Status: Ratified\n");
    let config = config_with_types(vec![("dec", type_config_pointer(&["Status"], None, None, Some(&["Blocked-on"])))]);
    let records = [blocked, target];
    let index = build_normalized_index(&records);
    let (exec, findings) = narrative_field_stale(&records, &config, &["Ratified".to_string()], &index);
    let population = exec.population.expect("the rule must state what it was handed");
    assert_eq!(population.unit(), PopulationUnit::Field);
    assert_eq!(population.eligible(), 2, "both records declare the slot");
    assert_eq!(population.examined(), 1, "only DEC-1 wrote the slot, so only DEC-1 reaches a verdict");
    assert_eq!(findings.len(), 1, "DEC-2 is terminal by declaration");
    assert!(findings[0].message.contains("DEC-2"));
}

#[test]
fn header_field_set_consistency_does_not_count_an_unparsed_header() {
    let (r, _) = yaml_record("docs/adr/ADR-1-x.md", "---\nStatus: [unclosed\n---\n# 1 — X\n");
    let config = config_for_known(vec![("adr", vec!["status"])]);
    let (exec, _) = header_field_set_consistency(&[r], &config);
    let population = exec.population.expect("the rule carries a population");
    assert_eq!((population.eligible(), population.examined()), (1, 0));
}

#[test]
fn missing_required_field_is_a_finding() {
    let r = record("docs/adr/0001-x.md", "adr", "> Status: Accepted\n");
    let config = config_for_required(vec![("adr", vec!["Status", "Deciders"])]);
    let (exec, findings) = header_required_fields(&[r], &config);
    assert_eq!(examined(&exec), 2, "both declared slots were read");
    assert_eq!(findings.len(), 1);
    assert!(findings[0].message.contains("Deciders"));
}

#[test]
fn a_type_declaring_no_header_is_not_reported_as_missing_one_observed_failing() {
    let r = Record::parse_with_shape(
        "docs/decisions/0001-x.md".to_string(),
        "dec".to_string(),
        "Just prose. No header block anywhere in this file.\n",
        HeaderShape::Headerless,
    );
    let config = config_with_types(vec![("dec", RecordTypeConfig { header_shape: HeaderShape::Headerless, ..type_config(None) })]);
    let (exec, findings) = header_required_fields(&[r], &config);
    assert_eq!(examined(&exec), 0, "a type with no header has nothing for this rule to examine");
    assert!(findings.is_empty(), "{findings:?}");
}

#[test]
fn a_broken_yaml_header_surfaces_the_real_parse_error_observed_failing() {
    let r = Record::parse_with_shape(
        "docs/adr/ADR-1-x.md".to_string(),
        "adr".to_string(),
        "---\nSubject: `oops\nStatus: Draft\n---\n# Title\n",
        HeaderShape::YamlFrontmatter,
    );
    let config = config_for_required(vec![("adr", vec!["Status"])]);
    let (exec, findings) = header_required_fields(&[r], &config);
    let population = exec.population.expect("the rule carries a population");
    assert_eq!((population.eligible(), population.examined()), (1, 0));
    assert_eq!(findings.len(), 1);
    assert!(findings[0].message.contains("YAML parse error"), "got: {}", findings[0].message);
}

#[test]
fn a_present_required_field_produces_no_finding() {
    let r = record("docs/adr/0001-x.md", "adr", "> Status: Accepted\n> Deciders: someone\n");
    let config = config_for_required(vec![("adr", vec!["Status", "Deciders"])]);
    let (exec, findings) = header_required_fields(&[r], &config);
    assert_eq!(examined(&exec), 2);
    assert!(findings.is_empty(), "unexpected findings: {findings:?}");
}

#[test]
fn a_planted_violation_is_observed_failing() {
    let r = record("docs/specs/0001-x.md", "spec", "> Status: Draft\n> Embodiment: Not started\n");
    let config = config_for_required(vec![("spec", vec!["Version"])]);
    let (_, findings) = header_required_fields(&[r], &config);
    assert_eq!(findings.len(), 1);
    assert!(findings[0].message.contains("Version"));
}

#[test]
fn a_declared_pipe_delimited_type_flags_a_one_per_line_record() {
    let r = record("docs/specs/0001-x.md", "spec", "> Version: 0.1\n> Status: Draft\n");
    let config = config_for_layout(vec![("spec", HeaderLayout::PipeDelimited)]);
    let (exec, findings) = header_layout_consistency(&[r], &config);
    assert_eq!(examined(&exec), 1);
    assert_eq!(findings.len(), 1);
    assert!(findings[0].message.contains("one-per-line"));
    assert!(findings[0].message.contains("pipe-delimited"));
}

#[test]
fn a_matching_layout_produces_no_finding() {
    let r = record("docs/specs/0002-x.md", "spec", "> Version: 0.1 | Status: Draft\n");
    let config = config_for_layout(vec![("spec", HeaderLayout::PipeDelimited)]);
    let (exec, findings) = header_layout_consistency(&[r], &config);
    assert_eq!(examined(&exec), 1);
    assert!(findings.is_empty());
}

#[test]
fn a_type_with_no_declared_layout_is_skipped_entirely() {
    let r = record("docs/adr/0001-x.md", "adr", "> Status: Accepted\n");
    let config = config_with_types(vec![]);
    let (exec, findings) = header_layout_consistency(&[r], &config);
    assert_eq!(examined(&exec), 0);
    assert!(findings.is_empty());
}

#[test]
fn an_undeclared_field_is_a_finding() {
    let r = record("docs/adr/0001-x.md", "adr", "> Status: Accepted\n> Date: 2026-09-07\n> Sponsor: someone\n");
    let config = config_for_known(vec![("adr", vec!["Status", "Date"])]);
    let (exec, findings) = header_field_set_consistency(&[r], &config);
    assert_eq!(examined(&exec), 1);
    assert_eq!(findings.len(), 1);
    assert!(findings[0].message.contains("Sponsor"));
}

#[test]
fn a_known_field_produces_no_finding() {
    let r = record("docs/adr/0001-x.md", "adr", "> Status: Accepted\n> Realized-by: code:x.rs\n");
    let config = config_for_known(vec![("adr", vec!["Status", "Realized-by"])]);
    let (exec, findings) = header_field_set_consistency(&[r], &config);
    assert_eq!(examined(&exec), 1);
    assert!(findings.is_empty());
}

#[test]
fn a_type_with_no_declared_known_fields_is_skipped_entirely() {
    let r = record("docs/specs/0001-x.md", "spec", "> Version: 0.1\n");
    let config = config_with_types(vec![]);
    let (exec, findings) = header_field_set_consistency(&[r], &config);
    assert_eq!(examined(&exec), 0);
    assert!(findings.is_empty());
}

#[test]
fn a_slot_behind_an_unparsed_header_is_not_judged_and_not_reported_on() {
    let r = record("docs/adr/ADR-1-x.md", "adr", "---\nStatus: Accepted\n  Date  :: nope\n---\n");
    let config = config_for_required(vec![("adr", vec!["Status", "Date"])]);
    let (exec, findings) = field_quality(&[r.clone()], &config);
    let population = exec.population.expect("the rule carries a population");
    assert_eq!((population.eligible(), population.examined()), (2, 0));
    assert!(findings.is_empty(), "{findings:?}");
    let (exec, findings) = field_pending(&[r], &config);
    let population = exec.population.expect("the rule carries a population");
    assert_eq!((population.eligible(), population.examined()), (2, 0));
    assert!(findings.is_empty(), "{findings:?}");
}

#[test]
fn a_slot_declared_only_as_required_is_still_a_declared_slot() {
    let r = record("docs/adr/ADR-1-x.md", "adr", "> Embodiment: Verified\n> Realized-by: code:src/lib.rs\n");
    let config = config_with_types(vec![("adr", type_config_pointer(&["Embodiment", "Realized-by"], None, None, None))]);
    let (exec, findings) = embodiment_consistency(&[r], &config, &Vec::new());
    let population = exec.population.expect("the rule must state what it was handed");
    assert_eq!((population.eligible(), population.examined()), (1, 1));
    assert_eq!(findings.len(), 1, "Verified disagrees with Implemented");
}

#[test]
fn a_supersession_slot_declared_only_as_required_is_still_declared() {
    let old = record("docs/adr/ADR-1-x.md", "adr", "> Supersedes / Superseded-by: —\n");
    let new = record("docs/adr/ADR-2-y.md", "adr", "> Supersedes / Superseded-by: ADR-0001\n");
    let config = config_with_types(vec![("adr", type_config_pointer(&["Supersedes / Superseded-by"], None, None, None))]);
    let records = [old, new];
    let index = build_normalized_index(&records);
    let (exec, findings) = supersession_reciprocity(&records, &config, &index);
    let population = exec.population.expect("the rule must state what it was handed");
    assert_eq!(population.eligible(), 2, "both records declare the slot");
    assert_eq!(findings.len(), 1, "the claim is one-directional");
}

#[test]
fn a_type_with_no_declared_spec_is_a_finding_observed_failing() {
    let config = config_with_types(vec![("milestone", type_config(None))]);
    let (exec, findings) = type_no_declared_spec(&config, CONFIG_PATH);
    assert_eq!(examined(&exec), 1);
    assert_eq!(findings.len(), 1);
    assert!(findings[0].message.contains("milestone"));
}

#[test]
fn a_declared_spec_pointer_produces_no_finding() {
    let config = config_with_types(vec![("milestone", type_config(Some("SPEC-6")))]);
    let (exec, findings) = type_no_declared_spec(&config, CONFIG_PATH);
    assert_eq!(examined(&exec), 1);
    assert!(findings.is_empty());
}

#[test]
fn a_type_still_declaring_blockquote_is_a_finding() {
    let config = config_with_types(vec![("adr", type_config_with_shape(HeaderShape::Blockquote))]);
    let (exec, findings) = header_deprecated_shape(&config, CONFIG_PATH);
    assert_eq!(examined(&exec), 1);
    assert_eq!(findings.len(), 1);
    assert!(findings[0].message.contains("adr"));
}

#[test]
fn a_type_declaring_yaml_frontmatter_produces_no_finding() {
    let config = config_with_types(vec![("adr", type_config_with_shape(HeaderShape::YamlFrontmatter))]);
    let (exec, findings) = header_deprecated_shape(&config, CONFIG_PATH);
    assert_eq!(examined(&exec), 1);
    assert!(findings.is_empty());
}

#[test]
fn a_type_declaring_only_pointer_fields_is_a_missing_declaration_observed_failing() {
    let config = config_with_types(vec![("spec", type_config_pointer(&["Implements"], None, Some(&["Implements"]), None))]);
    let (exec, findings) = config_pointer_declaration_missing(&config, CONFIG_PATH);
    assert_eq!(examined(&exec), 1);
    assert_eq!(findings.len(), 1);
    assert!(findings[0].message.contains("spec"));
}

#[test]
fn a_type_declaring_both_lists_including_an_explicit_empty_one_is_not_missing() {
    let config = config_with_types(vec![("waiver", type_config_pointer(&[], None, Some(&[]), Some(&[])))]);
    let (exec, findings) = config_pointer_declaration_missing(&config, CONFIG_PATH);
    assert_eq!(examined(&exec), 1);
    assert!(findings.is_empty());
}

#[test]
fn a_type_with_no_known_fields_declared_is_a_missing_declaration_observed_failing() {
    let config = config_with_types(vec![("spec", type_config_pointer(&["Status"], None, None, None))]);
    let (exec, findings) = config_known_fields_declaration_missing(&config, CONFIG_PATH);
    assert_eq!(examined(&exec), 1);
    assert_eq!(findings.len(), 1, "{findings:?}");
    assert!(findings[0].message.contains("spec"));
}

#[test]
fn a_header_none_type_with_no_known_fields_is_not_a_missing_declaration_observed_failing() {
    let config = config_with_types(vec![("waiver", type_config_with_shape(HeaderShape::Headerless))]);
    let (exec, findings) = config_known_fields_declaration_missing(&config, CONFIG_PATH);
    assert_eq!(examined(&exec), 1);
    assert!(findings.is_empty(), "{findings:?}");
}

#[test]
fn a_type_declaring_known_fields_as_an_explicit_empty_list_is_not_missing() {
    let config = config_with_types(vec![("waiver", type_config_pointer(&[], Some(&[]), None, None))]);
    let (exec, findings) = config_known_fields_declaration_missing(&config, CONFIG_PATH);
    assert_eq!(examined(&exec), 1);
    assert!(findings.is_empty(), "{findings:?}");
}

#[test]
fn a_scope_reaching_nothing_is_reported_observed_failing() {
    let executed = [exec_with("identity.collision", 2, 0, 2)];
    let (exec, findings) = config_scope_matches_nothing(&executed, CONFIG_PATH);
    assert_eq!(examined(&exec), 1, "the rule must judge the execution");
    assert_eq!(findings.len(), 1, "{findings:?}");
    assert!(findings[0].message.contains("identity.collision"));
}

#[test]
fn the_finding_names_the_configuration_the_caller_selected() {
    let executed = [exec_with("identity.collision", 2, 0, 2)];
    let chosen = "custom/urzua.yaml";
    let (_, findings) = config_scope_matches_nothing(&executed, chosen);
    assert_eq!(findings.len(), 1);
    assert_eq!(findings[0].file, chosen);
}

#[test]
fn a_rule_with_nothing_written_yet_is_not_reported() {
    let executed = [exec_with("revision-log.change-class-required", 2, 0, 0)];
    let (exec, findings) = config_scope_matches_nothing(&executed, CONFIG_PATH);
    assert_eq!(examined(&exec), 1);
    assert!(findings.is_empty(), "an empty corpus is not a misconfiguration: {findings:?}");
}

#[test]
fn it_does_not_judge_its_own_execution() {
    let executed = [exec_with(RULE_CONFIG_SCOPE_MATCHES_NOTHING, 3, 0, 3)];
    let (exec, findings) = config_scope_matches_nothing(&executed, CONFIG_PATH);
    assert_eq!(exec.population.expect("carries a population").eligible(), 0, "its own execution is not a candidate");
    assert!(findings.is_empty(), "{findings:?}");
}

#[test]
fn a_rule_that_did_not_run_is_not_a_candidate() {
    let executed = [RuleExecution {
        rule: "field.quality".to_string(),
        population: None,
        status: RuleStatus::NotEnabled,
        examined_records: Vec::new(),
    }];
    let (exec, findings) = config_scope_matches_nothing(&executed, CONFIG_PATH);
    assert_eq!(exec.population.expect("carries a population").eligible(), 0);
    assert!(findings.is_empty());
}

#[test]
fn a_type_declaring_no_header_is_not_reported_as_deprecated() {
    let config = config_with_types(vec![("dec", RecordTypeConfig { header_shape: HeaderShape::Headerless, ..type_config(None) })]);
    let (exec, findings) = header_deprecated_shape(&config, CONFIG_PATH);
    assert_eq!(examined(&exec), 1);
    assert!(findings.is_empty(), "{findings:?}");
}

#[test]
fn a_blockquote_type_is_still_reported_as_deprecated_observed_failing() {
    let config = config_with_types(vec![("adr", type_config(None))]);
    let (_, findings) = header_deprecated_shape(&config, CONFIG_PATH);
    assert_eq!(findings.len(), 1, "{findings:?}");
}

#[test]
fn a_header_none_type_with_required_fields_is_a_contradiction_observed_failing() {
    let config = config_with_types(vec![(
        "dec",
        RecordTypeConfig {
            header_shape: HeaderShape::Headerless,
            required_fields: vec!["Status".to_string()],
            ..type_config(None)
        },
    )]);
    let (exec, findings) = config_header_none_has_no_required_fields(&config, CONFIG_PATH);
    assert_eq!(examined(&exec), 1);
    assert_eq!(findings.len(), 1, "{findings:?}");
    assert!(findings[0].message.contains("Status"));
}

#[test]
fn a_header_none_type_with_no_required_fields_is_not_a_contradiction() {
    let config = config_with_types(vec![("dec", RecordTypeConfig { header_shape: HeaderShape::Headerless, ..type_config(None) })]);
    let (_, findings) = config_header_none_has_no_required_fields(&config, CONFIG_PATH);
    assert!(findings.is_empty(), "{findings:?}");
}

#[test]
fn a_type_declaring_neither_list_is_not_missing() {
    let config = config_with_types(vec![("adr", type_config_pointer(&[], None, None, None))]);
    let (exec, findings) = config_pointer_declaration_missing(&config, CONFIG_PATH);
    assert_eq!(examined(&exec), 1);
    assert!(findings.is_empty());
}

#[test]
fn the_case_only_hint_names_the_same_declaration_every_run() {
    let spellings = ["Blocked-on", "Blocked-On", "BLOCKED-on"];
    let orders = [[0, 1, 2], [0, 2, 1], [1, 0, 2], [1, 2, 0], [2, 0, 1], [2, 1, 0]];
    for order in orders {
        let allowed: Vec<String> = order.iter().map(|&i| spellings[i].to_string()).collect();
        assert_eq!(
            near_miss("blocked-on", &allowed).map(|f| f.as_str()),
            Some("BLOCKED-on"),
            "the hint must not depend on which spelling the declaration lists first"
        );
    }
}

#[test]
fn a_pointer_field_differing_only_in_case_is_absent_from_known_fields() {
    let config = config_with_types(vec![(
        "adr",
        type_config_pointer(&["Status"], Some(&["Derives-from"]), Some(&["Derives-From"]), Some(&[])),
    )]);
    let (exec, findings) = config_pointer_field_not_known(&config, CONFIG_PATH);
    assert_eq!(examined(&exec), 1);
    assert_eq!(findings.len(), 1, "{findings:?}");
    assert!(findings[0].message.contains("Derives-From"));
}

#[test]
fn a_relation_field_absent_from_known_fields_is_a_finding_observed_failing() {
    let config = config_with_types(vec![("rfc", relation(status_named("State"), type_config_pointer(&["Date"], None, None, None)))]);
    let (exec, findings) = config_relation_field_not_known(&config, CONFIG_PATH);
    assert_eq!(examined(&exec), 1);
    assert_eq!(findings.len(), 1, "{findings:?}");
    assert!(findings[0].message.contains("State"));
}

#[test]
fn a_relation_field_present_in_known_fields_is_not_a_finding() {
    let config = config_with_types(vec![("rfc", relation(status_named("State"), type_config_pointer(&["State"], None, None, None)))]);
    let (exec, findings) = config_relation_field_not_known(&config, CONFIG_PATH);
    assert_eq!(examined(&exec), 1);
    assert!(findings.is_empty(), "{findings:?}");
}

#[test]
fn a_type_with_no_declared_relation_fields_is_not_a_finding() {
    let config = config_with_types(vec![("rfc", type_config_pointer(&["Status"], None, None, None))]);
    let (exec, findings) = config_relation_field_not_known(&config, CONFIG_PATH);
    assert_eq!(examined(&exec), 1);
    assert!(findings.is_empty());
}

#[test]
fn pointer_and_narrative_names_differing_only_in_case_do_not_overlap() {
    let config = config_with_types(vec![(
        "adr",
        type_config_pointer(&[], Some(&["Blocked-on", "Blocked-On"]), Some(&["Blocked-on"]), Some(&["Blocked-On"])),
    )]);
    let (exec, findings) = config_pointer_narrative_overlap(&config, CONFIG_PATH);
    assert_eq!(examined(&exec), 1);
    assert!(findings.is_empty(), "two different names are two fields: {findings:?}");
}

#[test]
fn a_pointer_field_absent_from_known_fields_is_a_finding_observed_failing() {
    let config = config_with_types(vec![("spec", type_config_pointer(&["Status"], None, Some(&["Feeds-into"]), Some(&[])))]);
    let (exec, findings) = config_pointer_field_not_known(&config, CONFIG_PATH);
    assert_eq!(examined(&exec), 1);
    assert_eq!(findings.len(), 1);
    assert!(findings[0].message.contains("Feeds-into"));
}

#[test]
fn a_pointer_field_present_in_known_fields_is_not_a_finding() {
    let config = config_with_types(vec![(
        "spec",
        type_config_pointer(&["Status"], Some(&["Feeds-into"]), Some(&["Feeds-into"]), Some(&[])),
    )]);
    let (exec, findings) = config_pointer_field_not_known(&config, CONFIG_PATH);
    assert_eq!(examined(&exec), 1);
    assert!(findings.is_empty());
}

#[test]
fn a_field_present_in_both_pointer_and_narrative_lists_is_an_overlap_observed_failing() {
    let config = config_with_types(vec![(
        "milestone",
        type_config_pointer(&["Blocked-on"], None, Some(&["Blocked-on"]), Some(&["Blocked-on"])),
    )]);
    let (exec, findings) = config_pointer_narrative_overlap(&config, CONFIG_PATH);
    assert_eq!(examined(&exec), 1);
    assert_eq!(findings.len(), 1);
    assert!(findings[0].message.contains("Blocked-on"));
}

#[test]
fn disjoint_pointer_and_narrative_lists_are_not_an_overlap() {
    let config = config_with_types(vec![(
        "milestone",
        type_config_pointer(&["Implements", "Blocked-on"], None, Some(&["Implements"]), Some(&["Blocked-on"])),
    )]);
    let (exec, findings) = config_pointer_narrative_overlap(&config, CONFIG_PATH);
    assert_eq!(examined(&exec), 1);
    assert!(findings.is_empty());
}

#[test]
fn target_status_judges_only_the_statuses_a_repository_declared() {
    let target = record("docs/rfc/RFC-1-x.md", "rfc", "> Status: Draft\n");
    let source = record("docs/specs/SPEC-1-x.md", "spec", "> Implements: RFC-0001\n");
    let config = config_with_types(vec![
        ("spec", type_config_pointer(&[], None, Some(&["Implements"]), Some(&[]))),
        ("rfc", type_config_pointer(&["Status"], None, None, None)),
    ]);
    let records = [target, source];
    let index = build_normalized_index(&records);
    let (exec, findings) = pointer_target_status(&records, &config, &["Draft".to_string()], &index);
    assert_eq!(examined(&exec), 1);
    assert_eq!(findings.len(), 1);
    assert!(findings[0].message.contains("Draft"));
    let (_, none_declared) = pointer_target_status(&records, &config, &[], &index);
    assert!(none_declared.is_empty(), "{none_declared:?}");
    let (_, other) = pointer_target_status(&records, &config, &["Superseded".to_string()], &index);
    assert!(other.is_empty(), "{other:?}");
}

#[test]
fn a_type_declaring_a_custom_status_field_name_is_read_by_that_name_observed_failing() {
    let target = record("docs/rfc/RFC-1-x.md", "rfc", "> State: Draft\n");
    let source = record("docs/specs/SPEC-1-x.md", "spec", "> Implements: RFC-0001\n");
    let config = config_with_types(vec![
        ("spec", type_config_pointer(&[], None, Some(&["Implements"]), Some(&[]))),
        ("rfc", relation(status_named("State"), type_config_pointer(&["State"], None, None, None))),
    ]);
    let records = [target, source];
    let index = build_normalized_index(&records);
    let (exec, findings) = pointer_target_status(&records, &config, &["Draft".to_string()], &index);
    assert_eq!(examined(&exec), 1);
    assert_eq!(findings.len(), 1, "{findings:?}");
    assert!(findings[0].message.contains("Draft"));
}

#[test]
fn a_non_resolving_pointer_is_an_error() {
    let source = record("docs/specs/SPEC-1-x.md", "spec", "> Implements: RFC-9999\n");
    let config = config_with_types(vec![("spec", type_config_pointer(&[], None, Some(&["Implements"]), Some(&[])))]);
    let records = [source];
    let index = build_normalized_index(&records);
    let (_, findings) = pointer_resolution(&records, &config, &index);
    assert_eq!(findings.len(), 1);
    assert_eq!(findings[0].severity, FindingSeverity::Error);
}

#[test]
fn a_parent_pointer_resolves_the_same_as_implements() {
    let parent = record("docs/specs/SPEC-1-cli.md", "spec", "> Status: Draft\n");
    let child = record(
        "docs/specs/SPEC-2-urzua-check.md",
        "spec",
        "> Parent: SPEC-1 (v0 CLI). Extra trailing prose that isn't a reference.\n",
    );
    let config = config_with_types(vec![("spec", type_config_pointer(&[], None, Some(&["Parent"]), Some(&[])))]);
    let records = [parent, child];
    let index = build_normalized_index(&records);
    let (_, findings) = pointer_resolution(&records, &config, &index);
    assert!(findings.is_empty(), "{findings:?}");
}

#[test]
fn a_dangling_parent_pointer_is_an_error() {
    let child = record("docs/specs/SPEC-2-x.md", "spec", "> Parent: SPEC-9999\n");
    let config = config_with_types(vec![("spec", type_config_pointer(&[], None, Some(&["Parent"]), Some(&[])))]);
    let records = [child];
    let index = build_normalized_index(&records);
    let (_, findings) = pointer_resolution(&records, &config, &index);
    assert_eq!(findings.len(), 1);
    assert_eq!(findings[0].severity, FindingSeverity::Error);
    assert!(findings[0].message.contains("Parent: SPEC-9999"));
}

#[test]
fn a_derives_from_status_annotation_is_flagged_observed_failing() {
    let r = record("docs/adr/ADR-38-x.md", "adr", "> Status: Accepted\n> Derives-from: RFC-1 (Accepted)\n");
    let config = config_with_types(vec![("adr", type_config_pointer(&[], None, Some(&["Derives-from"]), None))]);
    let (exec, findings) = header_pointer_field_clean(&[r], &config);
    assert_eq!(examined(&exec), 1);
    assert_eq!(findings.len(), 1);
    assert!(findings[0].message.contains("RFC-1 (Accepted)"));
    assert_eq!(findings[0].severity, FindingSeverity::Warning);
}

#[test]
fn a_parent_field_with_freeform_trailing_prose_is_flagged() {
    let r = record(
        "docs/specs/SPEC-2-x.md",
        "spec",
        "> Status: Draft\n> Parent: SPEC-1 (v0 CLI). Cross-cutting rules stated there.\n",
    );
    let config = config_with_types(vec![("spec", type_config_pointer(&[], None, Some(&["Parent"]), None))]);
    let (_, findings) = header_pointer_field_clean(&[r], &config);
    assert_eq!(findings.len(), 1);
}

#[test]
fn a_value_with_trailing_whitespace_is_reported_observed_failing() {
    let r = Record::parse_with_shape_and_prefix(
        "docs/adr/ADR-1-x.md".to_string(),
        "adr".to_string(),
        "---\nStatus: \"Superseded   \"\n---\n# 1 — X\n",
        HeaderShape::YamlFrontmatter,
        "ADR".to_string(),
    );
    let config = config_for_required(vec![("adr", vec!["Status"])]);
    let (exec, findings) = field_untrimmed_value(&[r], &config);
    assert_eq!(examined(&exec), 1, "the slot is written, so it is judged");
    assert_eq!(findings.len(), 1, "{findings:?}");
    assert!(findings[0].message.contains("Superseded"));
}

#[test]
fn a_clean_value_is_not_reported_as_untrimmed() {
    let r = record("docs/adr/ADR-1-x.md", "adr", "> Status: Superseded\n");
    let config = config_for_required(vec![("adr", vec!["Status"])]);
    let (exec, findings) = field_untrimmed_value(&[r], &config);
    assert_eq!(examined(&exec), 1);
    assert!(findings.is_empty(), "{findings:?}");
}

#[test]
fn a_declared_field_written_under_a_different_case_is_reported_observed_failing() {
    let r = record("docs/adr/ADR-1-x.md", "adr", "> status: Accepted\n");
    let config = config_for_required(vec![("adr", vec!["Status"])]);
    let (exec, findings) = header_field_case_mismatch(&[r], &config);
    assert_eq!(examined(&exec), 1);
    assert_eq!(findings.len(), 1, "{findings:?}");
    assert!(findings[0].message.contains("'status'"), "{findings:?}");
    assert_eq!(findings[0].severity, FindingSeverity::Error);
}

#[test]
fn a_declared_field_written_correctly_cased_is_not_reported() {
    let r = record("docs/adr/ADR-1-x.md", "adr", "> Status: Accepted\n");
    let config = config_for_required(vec![("adr", vec!["Status"])]);
    let (exec, findings) = header_field_case_mismatch(&[r], &config);
    assert_eq!(examined(&exec), 1);
    assert!(findings.is_empty(), "{findings:?}");
}

#[test]
fn a_declared_field_never_written_at_all_is_absent_not_reported() {
    let r = record("docs/adr/ADR-1-x.md", "adr", "> Author: x\n");
    let config = config_for_required(vec![("adr", vec!["Status"])]);
    let (exec, findings) = header_field_case_mismatch(&[r], &config);
    assert_eq!(examined(&exec), 0, "genuine non-adoption is Absent, not Examined");
    assert!(findings.is_empty(), "{findings:?}");
}

#[test]
fn a_status_carrying_whitespace_does_not_silently_match_and_is_reported() {
    let yaml = |path: &str, content: &str| {
        Record::parse_with_shape_and_prefix(
            path.to_string(),
            "adr".to_string(),
            content,
            HeaderShape::YamlFrontmatter,
            "ADR".to_string(),
        )
    };
    let target = yaml("docs/adr/ADR-1-x.md", "---\nStatus: \"Superseded   \"\n---\n# 1 — X\n");
    let source = yaml("docs/adr/ADR-2-y.md", "---\nDerives-from: ADR-1\n---\n# 2 — Y\n");
    let config = config_with_types(vec![("adr", type_config_pointer(&["Status"], None, Some(&["Derives-from"]), Some(&[])))]);
    let target_status_records = [target.clone(), source];
    let (_, status_findings) = pointer_target_status(
        &target_status_records,
        &config,
        &["Superseded".to_string()],
        &build_normalized_index(&target_status_records),
    );
    assert!(status_findings.is_empty(), "the value is not that status: {status_findings:?}");
    let (_, whitespace) = field_untrimmed_value(&[target], &config);
    assert_eq!(whitespace.len(), 1, "and the whitespace must be reported, or nothing tells the author");
}

#[test]
fn a_clean_bare_reference_is_not_flagged() {
    let r = record("docs/adr/ADR-10-x.md", "adr", "> Status: Accepted\n> Derives-from: RFC-1\n> Parent: —\n");
    let config = config_with_types(vec![("adr", type_config_pointer(&[], None, Some(&["Derives-from", "Parent"]), None))]);
    let (exec, findings) = header_pointer_field_clean(&[r], &config);
    let population = exec.population.expect("the rule carries a population");
    assert_eq!(population.unit(), PopulationUnit::Field);
    assert_eq!(population.eligible(), 2);
    assert_eq!(population.examined(), 2);
    assert!(findings.is_empty());
}

#[test]
fn multiple_clean_references_are_not_flagged() {
    let r = record("docs/adr/ADR-8-x.md", "adr", "> Status: Accepted\n> Derives-from: RFC-8, ADR-15, ADR-19\n");
    let config = config_with_types(vec![("adr", type_config_pointer(&[], None, Some(&["Derives-from"]), None))]);
    let (_, findings) = header_pointer_field_clean(&[r], &config);
    assert!(findings.is_empty());
}

#[test]
fn an_empty_entry_between_commas_is_flagged_not_silently_skipped() {
    let r = record("docs/adr/ADR-11-x.md", "adr", "> Status: Accepted\n> Derives-from: RFC-1,,ADR-2\n");
    let config = config_with_types(vec![("adr", type_config_pointer(&[], None, Some(&["Derives-from"]), None))]);
    let (_, findings) = header_pointer_field_clean(&[r], &config);
    assert_eq!(findings.len(), 1);
}

#[test]
fn a_bare_placeholder_field_is_still_not_flagged() {
    let r = record("docs/adr/ADR-12-x.md", "adr", "> Status: Accepted\n> Parent: —\n");
    let config = config_with_types(vec![("adr", type_config_pointer(&[], None, Some(&["Parent"]), None))]);
    let (_, findings) = header_pointer_field_clean(&[r], &config);
    assert!(findings.is_empty());
}

#[test]
fn narrative_fields_are_excluded_even_with_trailing_prose() {
    let r = record(
        "docs/milestones/MILE-38-x.md",
        "milestone",
        "> Status: Planned\n> Blocked-on: MILE-38 (staleness detection) -- sequenced first.\n",
    );
    let config = config_with_types(vec![("milestone", type_config_pointer(&[], None, None, Some(&["Blocked-on"])))]);
    let (exec, findings) = header_pointer_field_clean(&[r], &config);
    assert_eq!(examined(&exec), 0);
    assert!(findings.is_empty());
}

#[test]
fn a_blocked_on_pointer_to_a_terminal_bug_is_a_stale_finding() {
    let bug = record("docs/bugs/BUG-3-x.md", "bug", "> Status: Fixed\n");
    let milestone = record("docs/milestones/MILE-2-x.md", "milestone", "> Status: Planned\n> Blocked-on: BUG-3\n");
    let config = config_with_types(vec![
        ("milestone", type_config_pointer(&[], None, None, Some(&["Blocked-on"]))),
        ("bug", type_config_pointer(&["Status"], None, None, None)),
    ]);
    let records = [bug, milestone];
    let index = build_normalized_index(&records);
    let (exec, findings) = narrative_field_stale(&records, &config, &terminal_for_tests(), &index);
    assert_eq!(examined(&exec), 1);
    assert_eq!(findings.len(), 1);
    assert!(findings[0].message.contains("BUG-3"));
    assert!(findings[0].message.contains("Fixed"));
    assert_eq!(findings[0].severity, FindingSeverity::Warning);
}

#[test]
fn a_blocked_on_pointer_to_a_non_terminal_record_is_not_stale() {
    let bug = record("docs/bugs/BUG-4-x.md", "bug", "> Status: Open\n");
    let milestone = record("docs/milestones/MILE-9-x.md", "milestone", "> Status: Planned\n> Blocked-on: BUG-4\n");
    let config = config_with_types(vec![("milestone", type_config_pointer(&[], None, None, Some(&["Blocked-on"])))]);
    let records = [bug, milestone];
    let index = build_normalized_index(&records);
    let (exec, findings) = narrative_field_stale(&records, &config, &terminal_for_tests(), &index);
    assert_eq!(examined(&exec), 1);
    assert!(findings.is_empty());
}

#[test]
fn blocked_on_free_text_with_no_reference_is_skipped() {
    let milestone = record(
        "docs/milestones/MILE-5-x.md",
        "milestone",
        "> Status: Planned\n> Blocked-on: a decision that hasn't been made\n",
    );
    let config = config_with_types(vec![("milestone", type_config_pointer(&[], None, None, Some(&["Blocked-on"])))]);
    let records = [milestone];
    let index = build_normalized_index(&records);
    let (exec, findings) = narrative_field_stale(&records, &config, &terminal_for_tests(), &index);
    let population = exec.population.expect("the rule must state what it was handed");
    assert_eq!(population.eligible(), 1, "the slot is declared and written");
    assert_eq!(population.examined(), 0, "prose yielding no reference is handed but not judged");
    assert!(findings.is_empty());
}

#[test]
fn a_dangling_blocked_on_reference_is_not_this_rule_s_job() {
    let milestone = record("docs/milestones/MILE-6-x.md", "milestone", "> Status: Planned\n> Blocked-on: BUG-9999\n");
    let config = config_with_types(vec![("milestone", type_config_pointer(&[], None, None, Some(&["Blocked-on"])))]);
    let records = [milestone];
    let index = build_normalized_index(&records);
    let (exec, findings) = narrative_field_stale(&records, &config, &terminal_for_tests(), &index);
    assert_eq!(examined(&exec), 1);
    assert!(findings.is_empty(), "a dangling reference is pointer_resolution's error case, not this rule's");
}

#[test]
fn narrative_field_stale_generalizes_beyond_blocked_on() {
    let bug = record("docs/bugs/BUG-7-x.md", "bug", "> Status: Fixed\n");
    let rfc = record("docs/rfc/RFC-1-x.md", "rfc", "> Status: Draft\n> Motivated-by: BUG-7\n");
    let config = config_with_types(vec![
        ("rfc", type_config_pointer(&[], None, None, Some(&["Motivated-by"]))),
        ("bug", type_config_pointer(&["Status"], None, None, None)),
    ]);
    let records = [bug, rfc];
    let index = build_normalized_index(&records);
    let (exec, findings) = narrative_field_stale(&records, &config, &terminal_for_tests(), &index);
    assert_eq!(examined(&exec), 1);
    assert_eq!(findings.len(), 1);
    assert!(findings[0].message.starts_with("Motivated-by:"));
}

#[test]
fn narrative_field_stale_reads_a_custom_status_field_name_observed_failing() {
    let bug = record("docs/bugs/BUG-8-x.md", "bug", "> State: Fixed\n");
    let rfc = record("docs/rfc/RFC-2-x.md", "rfc", "> Status: Draft\n> Motivated-by: BUG-8\n");
    let config = config_with_types(vec![
        ("rfc", type_config_pointer(&[], None, None, Some(&["Motivated-by"]))),
        ("bug", relation(status_named("State"), type_config_pointer(&["State"], None, None, None))),
    ]);
    let records = [bug, rfc];
    let index = build_normalized_index(&records);
    let (exec, findings) = narrative_field_stale(&records, &config, &terminal_for_tests(), &index);
    assert_eq!(examined(&exec), 1);
    assert_eq!(findings.len(), 1, "{findings:?}");
    assert!(findings[0].message.contains("Fixed"), "{findings:?}");
}

#[test]
fn a_five_digit_filename_still_resolves_bug_0002_observed_failing() {
    let target = record("docs/rfc/RFC-10000-x.md", "rfc", "> Status: Draft\n");
    let source = record("docs/specs/SPEC-1-x.md", "spec", "> Implements: RFC-10000\n");
    let config = config_with_types(vec![("spec", type_config_pointer(&[], None, Some(&["Implements"]), Some(&[])))]);
    let records = [target, source];
    let index = build_normalized_index(&records);
    let (_, findings) = pointer_resolution(&records, &config, &index);
    assert!(findings.is_empty(), "{findings:?}");
}

#[test]
fn a_reference_resolves_regardless_of_zero_padding() {
    let target = record("docs/adr/ADR-0034-x.md", "adr", "> Status: Accepted\n");
    let source = record("docs/specs/SPEC-1-y.md", "spec", "> Implements: ADR-34\n");
    let config = config_with_types(vec![("spec", type_config_pointer(&[], None, Some(&["Implements"]), Some(&[])))]);
    let records = [target, source];
    let index = build_normalized_index(&records);
    let (_, findings) = pointer_resolution(&records, &config, &index);
    assert!(findings.is_empty(), "{findings:?}");
}

#[test]
fn a_legacy_pre_type_prefix_filename_no_longer_resolves() {
    let legacy_style = record("docs/adr/0037-y.md", "adr", "> Status: Accepted\n");
    let source = record("docs/specs/SPEC-1-z.md", "spec", "> Implements: ADR-37\n");
    let config = config_with_types(vec![("spec", type_config_pointer(&[], None, Some(&["Implements"]), Some(&[])))]);
    let records = [legacy_style, source];
    let index = build_normalized_index(&records);
    let (_, findings) = pointer_resolution(&records, &config, &index);
    assert_eq!(findings.len(), 1, "unexpected findings: {findings:?}");
    assert_eq!(findings[0].severity, FindingSeverity::Error);
}

#[test]
fn a_configured_type_prefix_resolves_independently_of_the_type_name() {
    let milestone = record_with_prefix("docs/milestones/MILE-1-x.md", "milestone", "MILE", "> Status: Planned\n");
    let source = record("docs/adr/ADR-1-y.md", "adr", "> Implements: MILE-1\n");
    let config = config_with_types(vec![("adr", type_config_pointer(&[], None, Some(&["Implements"]), Some(&[])))]);
    let records = [milestone, source];
    let index = build_normalized_index(&records);
    let (_, findings) = pointer_resolution(&records, &config, &index);
    assert!(findings.is_empty(), "{findings:?}");
}

#[test]
fn filename_title_consistency_skips_a_legacy_shaped_filename() {
    let new_style = record("docs/adr/ADR-36-x.md", "adr", "# 36 — X\n\n> Status: Accepted\n");
    let legacy_style = record("docs/adr/0037-y.md", "adr", "# 37 — Y\n\n> Status: Accepted\n");
    let full_text = vec![
        (new_style.path.clone(), "# 36 — X\n\n> Status: Accepted\n".to_string()),
        (legacy_style.path.clone(), "# 37 — Y\n\n> Status: Accepted\n".to_string()),
    ];
    let (exec, findings) = filename_title_consistency(&[new_style, legacy_style], &full_text);
    assert_eq!(examined(&exec), 1);
    assert!(findings.is_empty(), "unexpected findings: {findings:?}");
}

#[test]
fn filename_title_consistency_still_catches_a_real_mismatch_on_the_new_shape() {
    let content = "# 0099 — Wrong Number\n\n> Status: Accepted\n";
    let r = record("docs/adr/ADR-0036-x.md", "adr", content);
    let full_text = text_of(&r, content);
    let (_, findings) = filename_title_consistency(&[r], &full_text);
    assert_eq!(findings.len(), 1);
    assert!(findings[0].message.contains("36") && findings[0].message.contains("99"));
}

#[test]
fn filename_title_consistency_distinguishes_an_unnumbered_h1_observed_failing() {
    let (r, full_text) = yaml_record("docs/adr/ADR-7-x.md", "---\nStatus: Accepted\n---\n# Add Status Field\n");
    let (_, findings) = filename_title_consistency(&[r], &full_text);
    assert_eq!(findings.len(), 1);
    assert!(!findings[0].message.contains("no H1 title found"), "got: {}", findings[0].message);
    assert!(findings[0].message.contains("Add Status Field"), "got: {}", findings[0].message);
}

#[test]
fn filename_title_consistency_reports_the_real_h1_line_observed_failing() {
    let (r, full_text) = yaml_record("docs/adr/ADR-36-x.md", "---\nStatus: Accepted\n---\n# 99 — Wrong Number\n");
    let (_, findings) = filename_title_consistency(&[r], &full_text);
    assert_eq!(findings.len(), 1);
    assert_eq!(findings[0].line, Some(4));
}

#[test]
fn filename_title_consistency_ignores_an_h1_inside_a_fenced_block_observed_failing() {
    let (r, full_text) = yaml_record(
        "docs/adr/ADR-8-x.md",
        "---\nStatus: Accepted\n---\nProse, no heading.\n\n```sh\n# 1. install\n```\n",
    );
    let (_, findings) = filename_title_consistency(&[r], &full_text);
    assert_eq!(findings.len(), 1);
    assert!(findings[0].message.contains("no H1 title found"), "got: {}", findings[0].message);
}

#[test]
fn filename_title_consistency_closes_a_fence_only_on_its_own_marker_observed_failing() {
    for body in ["````md\n```\n# 1. sample\n```\n````\n", "```md\n~~~\n# 1. sample\n~~~\n```\n"] {
        let (r, full_text) = yaml_record("docs/adr/ADR-8-x.md", &format!("---\nStatus: Accepted\n---\nProse.\n\n{body}"));
        let (_, findings) = filename_title_consistency(&[r], &full_text);
        assert_eq!(findings.len(), 1);
        assert!(findings[0].message.contains("no H1 title found"), "nested fence {body:?} leaked a heading: {}", findings[0].message);
    }
}

#[test]
fn filename_title_consistency_keeps_the_absent_h1_message() {
    let (r, full_text) = yaml_record("docs/adr/ADR-9-x.md", "---\nStatus: Accepted\n---\nNo heading anywhere.\n");
    let (_, findings) = filename_title_consistency(&[r], &full_text);
    assert_eq!(findings.len(), 1);
    assert_eq!(findings[0].message, "no H1 title found to check against the filename's number");
}

#[test]
fn filename_title_consistency_treats_an_empty_h1_as_absent() {
    let (r, full_text) = yaml_record("docs/adr/ADR-9-x.md", "---\nStatus: Accepted\n---\n# \n");
    let (_, findings) = filename_title_consistency(&[r], &full_text);
    assert_eq!(findings.len(), 1);
    assert!(findings[0].message.contains("no H1 title found"));
}

#[test]
fn an_empty_h1_skips_that_line_and_keeps_looking() {
    let (r, full_text) = yaml_record("docs/adr/ADR-7-x.md", "---\nStatus: Accepted\n---\n# \n\n# ADR-9 — Wrong number\n");
    let (_, findings) = filename_title_consistency(&[r], &full_text);
    assert_eq!(findings.len(), 1);
    assert!(!findings[0].message.contains("no H1 title found"), "a real H1 follows the empty one: {}", findings[0].message);
}

#[test]
fn field_quality_flags_placeholder_not_just_absence() {
    let r = record("docs/adr/0001-x.md", "adr", "> Author: name\n");
    let config = config_for_required(vec![("adr", vec!["Author"])]);
    let (exec, findings) = field_quality(&[r], &config);
    assert_eq!(examined(&exec), 1);
    assert_eq!(findings.len(), 1);
    assert!(findings[0].message.contains("Placeholder"));
}

#[test]
fn field_quality_discloses_unreadable_on_its_own_observed_failing() {
    let r = record("docs/adr/0001-x.md", "adr", "this is not a header at all");
    let config = config_for_required(vec![("adr", vec!["Status"])]);
    let (exec, findings) = field_quality(&[r], &config);
    assert_eq!(examined(&exec), 0, "{exec:?}");
    assert_eq!(unreadable(&exec), 1, "{exec:?}");
    assert!(findings.is_empty(), "{findings:?}");
}

#[test]
fn a_claim_to_close_an_open_record_is_an_error_observed_failing() {
    let bug = record("docs/bugs/BUG-36-x.md", "bug", "> Status: Open\n");
    let claims = vec![(
        ".changeset/x.md".to_string(),
        "rendered through a real serializer -- which also closes BUG-36, where a directory\nname escaped its value.\n".to_string(),
    )];
    let closed = vec!["Fixed".to_string()];
    let records = [bug];
    let index = build_normalized_index(&records);
    let config = config_for_required(vec![("bug", vec!["Status"])]);
    let (exec, findings) = claim_status_agreement(&claims, &closed, &config, &index);
    assert_eq!(examined(&exec), 1);
    assert_eq!(findings.len(), 1);
    assert_eq!(findings[0].severity, FindingSeverity::Error);
    assert_eq!(findings[0].line, Some(1));
    assert!(findings[0].message.contains("Status Open"), "{findings:?}");
}

#[test]
fn a_claim_against_a_case_differently_written_status_key_is_not_judged_observed_failing() {
    let bug = record("docs/bugs/BUG-36-x.md", "bug", "> status: Open\n");
    let claims = vec![(".changeset/x.md".to_string(), "closes BUG-36.".to_string())];
    let closed = vec!["Fixed".to_string()];
    let records = [bug];
    let index = build_normalized_index(&records);
    let config = config_for_required(vec![("bug", vec!["Status"])]);
    let (exec, findings) = claim_status_agreement(&claims, &closed, &config, &index);
    assert_eq!(examined(&exec), 1);
    assert!(findings.is_empty(), "a lookup miss must not be reported as a status mismatch: {findings:?}");
}

#[test]
fn claim_status_agreement_reads_a_custom_status_field_name_observed_failing() {
    let bug = record("docs/bugs/BUG-36-x.md", "bug", "> State: Open\n");
    let claims = vec![(".changeset/x.md".to_string(), "which also closes BUG-36.".to_string())];
    let closed = vec!["Fixed".to_string()];
    let records = [bug];
    let index = build_normalized_index(&records);
    let config = config_with_types(vec![("bug", relation(status_named("State"), type_config_pointer(&["State"], None, None, None)))]);
    let (exec, findings) = claim_status_agreement(&claims, &closed, &config, &index);
    assert_eq!(examined(&exec), 1);
    assert_eq!(findings.len(), 1, "{findings:?}");
    assert!(findings[0].message.contains("State Open"), "{findings:?}");
}

#[test]
fn a_claim_against_a_target_whose_type_never_declares_status_is_not_judged_observed_failing() {
    let bug = record("docs/bugs/BUG-36-x.md", "bug", "> Status: Open\n");
    let claims = vec![(".changeset/x.md".to_string(), "closes BUG-36.".to_string())];
    let closed = vec!["Fixed".to_string()];
    let records = [bug];
    let index = build_normalized_index(&records);
    let config = config_for_required(vec![("bug", vec![])]);
    let (exec, findings) = claim_status_agreement(&claims, &closed, &config, &index);
    assert_eq!(examined(&exec), 1);
    assert!(findings.is_empty(), "a type that never declared Status must not have it judged: {findings:?}");
}

#[test]
fn a_verb_inside_another_word_is_not_a_claim_observed_failing() {
    assert!(claimed("The path prefixes changed; see RFC-9 for why.").is_empty());
    assert!(claimed("This discloses RFC-9's reasoning.").is_empty());
    assert!(claimed("Suffixes and RFC-9 are unrelated.").is_empty());
}

#[test]
fn a_hyphenated_type_prefix_is_a_recognized_reference_observed_failing() {
    assert!(is_record_reference(&chars("DOC-ADR-2")));
    assert!(is_record_reference(&chars("RFC-9")));
    assert!(!is_record_reference(&chars("DOC-adr-2")), "a lowercase segment is not a prefix");
    assert!(!is_record_reference(&chars("DOC-ADR-")), "nothing after the last hyphen is not a number");
    assert_eq!(scanned("see DOC-ADR-2 for context"), vec!["DOC-ADR-2".to_string()]);
    assert_eq!(extract_references("DOC-ADR-2, RFC-9"), vec!["DOC-ADR-2".to_string(), "RFC-9".to_string()]);
}

#[test]
fn only_the_reference_the_verb_governs_is_claimed_observed_failing() {
    assert_eq!(claimed("Fixes BUG-39, which RFC-9 predicted."), vec!["BUG-39".to_string()]);
    assert_eq!(claimed("Fixes BUG-39, and BUG-40."), vec!["BUG-39".to_string(), "BUG-40".to_string()]);
    assert!(claimed("Fixes and BUG-40 are unrelated.").is_empty());
    assert_eq!(
        claimed("Closes BUG-39, BUG-40 and BUG-41 in one change."),
        vec!["BUG-39".to_string(), "BUG-40".to_string(), "BUG-41".to_string()]
    );
    assert_eq!(claimed("which also closes BUG-36, where a directory name"), vec!["BUG-36".to_string()]);
}

#[test]
fn a_claim_to_close_an_already_closed_record_is_silent() {
    let bug = record("docs/bugs/BUG-36-x.md", "bug", "> Status: Fixed\n");
    let claims = vec![(".changeset/x.md".to_string(), "closes BUG-36\n".to_string())];
    let records = [bug];
    let index = build_normalized_index(&records);
    let config = config_for_required(vec![("bug", vec!["Status"])]);
    let (_, findings) = claim_status_agreement(&claims, &["Fixed".to_string()], &config, &index);
    assert!(findings.is_empty(), "{findings:?}");
}

#[test]
fn a_reference_without_a_closing_verb_is_not_a_claim() {
    let bug = record("docs/bugs/BUG-36-x.md", "bug", "> Status: Open\n");
    let claims = vec![(".changeset/x.md".to_string(), "see BUG-36 for the four hardcoded paths\n".to_string())];
    let records = [bug];
    let index = build_normalized_index(&records);
    let config = config_for_required(vec![("bug", vec!["Status"])]);
    let (_, findings) = claim_status_agreement(&claims, &["Fixed".to_string()], &config, &index);
    assert!(findings.is_empty(), "{findings:?}");
}

#[test]
fn a_possessive_does_not_hide_a_reference_observed_failing() {
    let value = "RFC-9's own Q2";
    assert_eq!(extract_references(value), vec!["RFC-9".to_string()]);
    assert_eq!(scanned(value), vec!["RFC-9".to_string()]);
    assert!(scanned("RFC-9a is unrelated").is_empty());
    assert!(scanned("RFC-9s covers nine").is_empty());
    assert_eq!(scanned("see RFC-9, then stop"), vec!["RFC-9".to_string()]);
    assert_eq!(scanned("see RFC-9."), vec!["RFC-9".to_string()]);
}

#[test]
fn scanning_prose_finds_references_that_extract_references_misses() {
    let line = "concatenation -- which also closes BUG-36, where a directory name escaped";
    assert!(extract_references(line).is_empty());
    assert_eq!(scanned(line), vec!["BUG-36".to_string()]);
}

#[test]
fn an_empty_declared_directory_is_not_a_finding() {
    let config = config_with_types(vec![
        ("present", RecordTypeConfig { dir: "docs/present".to_string(), ..type_config(None) }),
        ("absent", RecordTypeConfig { dir: "docs/absent".to_string(), ..type_config(None) }),
    ]);
    let existing = vec!["docs/present".to_string()];
    let (exec, findings) = type_dir_matches_nothing(&config, CONFIG_PATH, &Vec::new(), &existing);
    assert_eq!(examined(&exec), 2, "both types are examined");
    assert_eq!(findings.len(), 1);
    assert!(findings[0].message.contains("docs/absent"), "{findings:?}");
    assert!(!findings[0].message.contains("present"), "{findings:?}");
}

#[test]
fn a_locator_naming_a_missing_path_is_an_error_observed_failing() {
    let r = record("docs/adr/ADR-1-x.md", "adr", "> Realized-by: code:src/real.rs, code:src/gone.rs\n");
    let present = vec!["src/real.rs".to_string()];
    let (exec, findings) = embodiment_locator_exists(std::slice::from_ref(&r), &embodiment_config(), &present);
    assert_eq!(examined(&exec), 1);
    assert_eq!(findings.len(), 1);
    assert_eq!(findings[0].severity, FindingSeverity::Error);
    assert!(findings[0].message.contains("src/gone.rs"), "{findings:?}");
    let all_there = vec!["src/real.rs".to_string(), "src/gone.rs".to_string(), "".to_string()];
    let (_, none) = embodiment_locator_exists(std::slice::from_ref(&r), &embodiment_config(), &all_there);
    assert!(none.is_empty(), "{none:?}");
    let empty = record("docs/adr/ADR-2-y.md", "adr", "> Realized-by: code:\n");
    let (_, findings) = embodiment_locator_exists(&[empty], &embodiment_config(), &all_there);
    assert_eq!(findings.len(), 1, "{findings:?}");
    assert!(findings[0].message.contains("empty locator"), "{findings:?}");
}

#[test]
fn a_type_declaring_a_custom_locator_field_name_is_read_by_that_name_observed_failing() {
    let config = config_with_types(vec![(
        "adr",
        relation(
            RelationFields { embodiment_locator: Some("Evidence".to_string()), ..Default::default() },
            type_config_pointer(&[], Some(&["Evidence"]), None, None),
        ),
    )]);
    let r = record("docs/adr/ADR-1-x.md", "adr", "> Evidence: code:src/gone.rs\n");
    let present: Vec<String> = Vec::new();
    let (exec, findings) = embodiment_locator_exists(std::slice::from_ref(&r), &config, &present);
    assert_eq!(examined(&exec), 1);
    assert_eq!(findings.len(), 1, "{findings:?}");
    assert!(findings[0].message.contains("src/gone.rs"), "{findings:?}");
}

#[test]
fn a_pending_field_belongs_to_field_pending_not_field_quality() {
    let r = record("docs/adr/0001-x.md", "adr", "> Deciders: Pending\n");
    let config = config_for_required(vec![("adr", vec!["Deciders"])]);
    let (_, quality) = field_quality(std::slice::from_ref(&r), &config);
    assert!(quality.is_empty(), "{quality:?}");
    let (_, pending) = field_pending(std::slice::from_ref(&r), &config);
    assert_eq!(pending.len(), 1);
    assert!(pending[0].message.contains("pending"));
    let blank = record("docs/adr/0002-y.md", "adr", "> Deciders:\n");
    let (_, q2) = field_quality(std::slice::from_ref(&blank), &config);
    assert_eq!(q2.len(), 1);
    assert_eq!(q2[0].severity, FindingSeverity::Error);
    let (_, p2) = field_pending(&[blank], &config);
    assert!(p2.is_empty(), "{p2:?}");
}

#[test]
fn field_quality_passes_a_real_value() {
    let r = record("docs/adr/0001-x.md", "adr", "> Author: someone\n");
    let config = config_for_required(vec![("adr", vec!["Author"])]);
    let (_, findings) = field_quality(&[r], &config);
    assert!(findings.is_empty(), "unexpected findings: {findings:?}");
}

#[test]
fn field_quality_flags_a_retired_placeholder_as_an_error() {
    let r = record("docs/adr/0001-x.md", "adr", "> Author: (project lead)\n");
    let config = config_for_required(vec![("adr", vec!["Author"])]);
    let (_, findings) = field_quality(&[r], &config);
    assert_eq!(findings.len(), 1);
    assert_eq!(findings[0].severity, FindingSeverity::Error);
}

#[test]
fn filename_title_mismatch_is_a_planted_violation_observed_failing() {
    let r = record("docs/adr/ADR-1-x.md", "adr", "# 0002 — Wrong Number\n");
    let full_text = text_of(&r, "# 0002 — Wrong Number\n");
    let (exec, findings) = filename_title_consistency(&[r], &full_text);
    assert_eq!(examined(&exec), 1);
    assert_eq!(findings.len(), 1);
    assert!(findings[0].message.contains('1'));
    assert!(findings[0].message.contains('2'));
}

#[test]
fn matching_filename_and_title_produce_no_finding() {
    let r = record("docs/adr/ADR-1-x.md", "adr", "# 0001 — Correct\n");
    let full_text = text_of(&r, "# 0001 — Correct\n");
    let (exec, findings) = filename_title_consistency(&[r], &full_text);
    assert_eq!(examined(&exec), 1);
    assert!(findings.is_empty(), "unexpected findings: {findings:?}");
}

#[test]
fn a_revision_log_entry_with_no_real_change_class_is_a_planted_violation_observed_failing() {
    let content = "# 0001 — X\n\n> **Revision log**\n>\n> | Date | Change | Class |\n> |---|---|---|\n> | 2026-08-20 | Split out. | — |\n";
    let r = record("docs/specs/0001-x.md", "spec", content);
    let full_text = text_of(&r, content);
    let (exec, findings) = revision_log_change_class(&[r], &full_text);
    assert_eq!(examined(&exec), 1);
    assert_eq!(findings.len(), 1);
    assert!(findings[0].message.contains("2026-08-20"));
}

#[test]
fn a_revision_log_entry_with_a_real_change_class_produces_no_finding() {
    let content = "# 0001 — X\n\n> **Revision log**\n>\n> | Date | Change | Class |\n> |---|---|---|\n> | 2026-08-20 | Renamed a field. | **structural** |\n";
    let r = record("docs/specs/0001-x.md", "spec", content);
    let full_text = text_of(&r, content);
    let (_, findings) = revision_log_change_class(&[r], &full_text);
    assert!(findings.is_empty(), "unexpected findings: {findings:?}");
}

#[test]
fn a_record_with_no_revision_log_section_is_not_examined() {
    let content = "# 0001 — X\n\n> Status: Draft\n";
    let r = record("docs/adr/0001-x.md", "adr", content);
    let full_text = text_of(&r, content);
    let (exec, findings) = revision_log_change_class(&[r], &full_text);
    assert_eq!(examined(&exec), 0);
    assert!(findings.is_empty());
}

#[test]
fn embodiment_disagreeing_with_realized_by_is_a_planted_violation_observed_failing() {
    let r = record("docs/adr/0001-x.md", "adr", "> Embodiment: Verified\n> Realized-by: code:src/lib.rs\n");
    let (exec, findings) = embodiment_consistency(&[r], &embodiment_config(), &Vec::new());
    assert_eq!(examined(&exec), 1);
    assert_eq!(findings.len(), 1);
    assert!(findings[0].message.contains("Verified"));
    assert!(findings[0].message.contains("Implemented"));
}

#[test]
fn embodiment_agreeing_with_realized_by_produces_no_finding() {
    let r = record("docs/adr/0001-x.md", "adr", "> Embodiment: Implemented\n> Realized-by: code:src/lib.rs\n");
    let (_, findings) = embodiment_consistency(&[r], &embodiment_config(), &Vec::new());
    assert!(findings.is_empty(), "unexpected findings: {findings:?}");
}

#[test]
fn a_type_declaring_custom_embodiment_field_names_is_read_by_those_names_observed_failing() {
    let config = config_with_types(vec![(
        "adr",
        relation(
            RelationFields {
                embodiment_state: Some("Phase".to_string()),
                embodiment_locator: Some("Evidence".to_string()),
                ..Default::default()
            },
            type_config_pointer(&[], Some(&["Phase", "Evidence"]), None, None),
        ),
    )]);
    let r = record("docs/adr/0001-x.md", "adr", "> Phase: Verified\n> Evidence: code:src/lib.rs\n");
    let (exec, findings) = embodiment_consistency(&[r], &config, &Vec::new());
    assert_eq!(examined(&exec), 1);
    assert_eq!(findings.len(), 1, "{findings:?}");
    assert!(findings[0].message.contains("Phase"));
    assert!(findings[0].message.contains("Evidence"));
}

#[test]
fn a_test_locator_outranks_a_code_locator() {
    let realized = parse_realized_by("code:src/lib.rs, test:tests/it.rs");
    assert_eq!(compute_embodiment(&realized, false), "Verified");
}

#[test]
fn a_drifted_record_computes_to_drift_detected_regardless_of_tier() {
    let realized = parse_realized_by("code:src/lib.rs, test:tests/it.rs");
    assert_eq!(compute_embodiment(&realized, true), "Drift detected");
}

#[test]
fn a_record_marked_drifted_produces_a_finding_even_when_verified_matches_its_tier() {
    let r = record("docs/adr/0001-x.md", "adr", "> Embodiment: Verified\n> Realized-by: code:src/lib.rs, test:tests/it.rs\n");
    let drifted = vec![r.path.clone()];
    let (_, findings) = embodiment_consistency(&[r], &embodiment_config(), &drifted);
    assert_eq!(findings.len(), 1);
    assert!(findings[0].message.contains("Drift detected"));
}

#[test]
fn a_record_missing_half_the_pair_is_handed_to_the_rule_and_not_judged() {
    let r = record("docs/adr/0001-x.md", "adr", "> Embodiment: Not started\n");
    let (exec, findings) = embodiment_consistency(&[r], &embodiment_config(), &Vec::new());
    let population = exec.population.expect("the rule must state what it was handed");
    assert_eq!((population.eligible(), population.examined()), (1, 0));
    assert!(findings.is_empty());
}

#[test]
fn realized_by_locator_paths_flattens_all_three_categories() {
    let paths = realized_by_locator_paths("spec:docs/rfc/0001-x.md, code:src/lib.rs, test:tests/it.rs");
    assert_eq!(paths, vec!["docs/rfc/0001-x.md", "src/lib.rs", "tests/it.rs"]);
}

#[test]
fn a_locator_cited_by_two_records_is_a_promotion_candidate_observed_failing() {
    let a = record("docs/adr/0001-x.md", "adr", "> Realized-by: code:src/shared.rs\n");
    let b = record("docs/adr/0002-y.md", "adr", "> Realized-by: code:src/shared.rs\n");
    let (exec, findings) = embodiment_locator_promotion_candidate(&[a, b], &embodiment_config());
    assert_eq!(examined(&exec), 2);
    assert_eq!(findings.len(), 1);
    assert!(findings[0].message.contains("src/shared.rs"));
}

#[test]
fn one_record_citing_the_same_locator_under_two_categories_is_not_a_promotion_candidate() {
    let a = record("docs/adr/0001-x.md", "adr", "> Realized-by: code:src/shared.rs, test:src/shared.rs\n");
    let (_, findings) = embodiment_locator_promotion_candidate(&[a], &embodiment_config());
    assert!(findings.is_empty(), "unexpected findings: {findings:?}");
}

#[test]
fn a_locator_cited_by_only_one_record_is_not_a_promotion_candidate() {
    let a = record("docs/adr/0001-x.md", "adr", "> Realized-by: code:src/a.rs\n");
    let (_, findings) = embodiment_locator_promotion_candidate(&[a], &embodiment_config());
    assert!(findings.is_empty());
}

#[test]
fn a_one_directional_supersession_claim_is_a_reciprocity_violation() {
    let old = record("docs/adr/ADR-1-x.md", "adr", "> Supersedes / Superseded-by: —\n");
    let new = record("docs/adr/ADR-2-y.md", "adr", "> Supersedes / Superseded-by: ADR-0001\n");
    let config = config_with_types(vec![("adr", type_config_pointer(&[], Some(&["Supersedes / Superseded-by"]), None, None))]);
    let records = [old, new];
    let index = build_normalized_index(&records);
    let (exec, findings) = supersession_reciprocity(&records, &config, &index);
    let population = exec.population.expect("the rule must state what it was handed");
    assert_eq!(population.eligible(), 2, "both records declare the slot");
    assert_eq!(population.examined(), 2, "the reciprocating half answered its slot with the em dash");
    assert_eq!(findings.len(), 1);
    assert!(findings[0].message.contains("ADR-0001"));
}

#[test]
fn a_reciprocated_supersession_produces_no_finding() {
    let old = record("docs/adr/ADR-1-x.md", "adr", "> Supersedes / Superseded-by: ADR-0002\n");
    let new = record("docs/adr/ADR-2-y.md", "adr", "> Supersedes / Superseded-by: ADR-0001\n");
    let config = config_with_types(vec![("adr", type_config_pointer(&[], Some(&["Supersedes / Superseded-by"]), None, None))]);
    let records = [old, new];
    let index = build_normalized_index(&records);
    let (exec, findings) = supersession_reciprocity(&records, &config, &index);
    let population = exec.population.expect("the rule must state what it was handed");
    assert_eq!((population.eligible(), population.examined()), (2, 2));
    assert!(findings.is_empty(), "unexpected findings: {findings:?}");
}

#[test]
fn a_type_declaring_a_custom_supersession_field_name_is_read_by_that_name_observed_failing() {
    let old = record("docs/adr/ADR-1-x.md", "adr", "> Replaces: —\n");
    let new = record("docs/adr/ADR-2-y.md", "adr", "> Replaces: ADR-0001\n");
    let config = config_with_types(vec![(
        "adr",
        relation(
            RelationFields { supersession: Some("Replaces".to_string()), ..Default::default() },
            type_config_pointer(&[], Some(&["Replaces"]), None, None),
        ),
    )]);
    let records = [old, new];
    let index = build_normalized_index(&records);
    let (exec, findings) = supersession_reciprocity(&records, &config, &index);
    let population = exec.population.expect("the rule must state what it was handed");
    assert_eq!(population.eligible(), 2, "both records declare the slot");
    assert_eq!(findings.len(), 1, "{findings:?}");
    assert!(findings[0].message.contains("ADR-0001"));
}

#[test]
fn an_em_dash_supersession_value_answers_its_slot() {
    let r = record("docs/adr/ADR-1-x.md", "adr", "> Supersedes / Superseded-by: —\n");
    let config = config_with_types(vec![("adr", type_config_pointer(&[], Some(&["Supersedes / Superseded-by"]), None, None))]);
    let records = [r];
    let index = build_normalized_index(&records);
    let (exec, findings) = supersession_reciprocity(&records, &config, &index);
    let population = exec.population.expect("the rule must state what it was handed");
    assert_eq!((population.eligible(), population.examined()), (1, 1), "the em dash is a written answer");
    assert!(findings.is_empty());
}

#[test]
fn relation_target_status_undeclared_flags_a_resolving_reference_to_an_undeclaring_type_observed_failing() {
    let target = record("docs/rfc/RFC-1-x.md", "rfc", "> Date: 2026-01-01\n");
    let source = record("docs/specs/SPEC-1-x.md", "spec", "> Implements: RFC-1\n");
    let config = config_with_types(vec![
        ("spec", type_config_pointer(&[], None, Some(&["Implements"]), Some(&[]))),
        ("rfc", type_config_pointer(&["Date"], None, None, None)),
    ]);
    let records = [target, source];
    let index = build_normalized_index(&records);
    let (exec, findings) = relation_target_status_undeclared(&records, &config, &index);
    assert_eq!(examined(&exec), 1);
    assert_eq!(findings.len(), 1, "{findings:?}");
    assert!(findings[0].message.contains("RFC-1"), "{findings:?}");
    assert!(findings[0].message.contains("Status"), "{findings:?}");
}

#[test]
fn relation_target_status_undeclared_is_silent_when_the_target_declares_status() {
    let target = record("docs/rfc/RFC-1-x.md", "rfc", "> Status: Draft\n");
    let source = record("docs/specs/SPEC-1-x.md", "spec", "> Implements: RFC-1\n");
    let config = config_with_types(vec![
        ("spec", type_config_pointer(&[], None, Some(&["Implements"]), Some(&[]))),
        ("rfc", type_config_pointer(&["Status"], None, None, None)),
    ]);
    let records = [target, source];
    let index = build_normalized_index(&records);
    let (exec, findings) = relation_target_status_undeclared(&records, &config, &index);
    assert_eq!(examined(&exec), 1);
    assert!(findings.is_empty(), "{findings:?}");
}

#[test]
fn records_below_a_declared_dir_are_reported_in_path_order() {
    let config = config_with_types(vec![("adr", RecordTypeConfig { dir: "docs/adr".to_string(), ..type_config(None) })]);
    let candidates = vec![
        "docs/adr/a-b/0001-x.md".to_string(),
        "docs/adr/a/0002-y.md".to_string(),
        "docs/adr/0003-z.md".to_string(),
    ];
    let (exec, findings) = type_record_outside_declared_dir(&config, &candidates);
    let p = exec.population.unwrap();
    assert_eq!(p.eligible(), 3);
    assert_eq!(p.examined(), 3);
    let files: Vec<&str> = findings.iter().map(|f| f.file.as_str()).collect();
    assert_eq!(files, vec!["docs/adr/a/0002-y.md", "docs/adr/a-b/0001-x.md"]);
    assert!(findings.iter().all(|f| f.severity == FindingSeverity::Warning));
}

#[test]
fn a_record_text_is_found_under_its_path_however_the_path_is_spelled() {
    let content = "# 0099 — Wrong Number\n\n> Status: Accepted\n";
    let r = record("docs/adr/ADR-0036-x.md", "adr", content);
    let full_text = vec![("docs//adr/./ADR-0036-x.md".to_string(), content.to_string())];
    let (exec, findings) = filename_title_consistency(&[r], &full_text);
    assert_eq!(examined(&exec), 1);
    assert_eq!(findings.len(), 1);
}
