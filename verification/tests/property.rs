use urzua::config::{Config, RecordTypeConfig};
use urzua::header::{parse, HeaderLayout, HeaderShape};
use urzua::record::Record;
use urzua::references::build_index_reporting_collisions;
use urzua::report::{Finding, RuleExecution};
use urzua::rules;
use urzua::rules::{field_is_declared, header_field_set_consistency};

const ALPHABET: &[char] = &['a', 'B', 'z', '-', '_', 'é', 'É', 'ß', 'İ', '漢', '\u{0301}', '\u{05D0}'];

struct Gen(u64);

impl Gen {
    fn next(&mut self) -> u64 {
        let mut x = self.0;
        x ^= x >> 12;
        x ^= x << 25;
        x ^= x >> 27;
        self.0 = x;
        x.wrapping_mul(0x2545_F491_4F6C_DD1D)
    }

    fn below(&mut self, n: usize) -> usize {
        (self.next() % n as u64) as usize
    }

    fn field_name(&mut self) -> String {
        let len = 1 + self.below(6);
        (0..len).map(|_| ALPHABET[self.below(ALPHABET.len())]).collect()
    }
}

fn first_counterexample(
    matcher: impl Fn(&str, &Vec<String>) -> bool,
    cases: usize,
    seed: u64,
) -> Option<(String, String)> {
    let mut gen = Gen(seed);
    for _ in 0..cases {
        let declared = gen.field_name();
        let allowed: Vec<String> = vec![declared.clone()];
        let same_case = gen.below(2) == 0;
        let written = if same_case { declared.clone() } else { declared.to_uppercase() };
        let matched = matcher(&written, &allowed);
        let expected = same_case || written == declared;
        if matched != expected {
            return Some((declared, written));
        }
    }
    None
}

fn case_insensitive_matcher(key: &str, allowed: &Vec<String>) -> bool {
    allowed.iter().any(|d| d.to_lowercase() == key.to_lowercase())
}

#[test]
fn the_property_rejects_a_case_insensitive_matcher() {
    let found = first_counterexample(case_insensitive_matcher, 500, 0xC0FFEE);
    assert!(found.is_some(), "a case-insensitive matcher must fail the property");
}

#[test]
fn a_field_name_matches_its_declaration_exactly_and_only_exactly() {
    if let Some((declared, written)) = first_counterexample(field_is_declared, 500, 0xC0FFEE) {
        panic!("type declared {declared:?}, record wrote {written:?}, and the matcher disagreed with exact comparison");
    }
}

#[test]
fn the_generator_reaches_its_non_ascii_alphabet() {
    let mut gen = Gen(0xC0FFEE);
    let produced: String = (0..500).map(|_| gen.field_name()).collect();
    for ch in ['é', 'É', 'ß', 'İ', '漢', '\u{0301}', '\u{05D0}'] {
        assert!(produced.contains(ch), "the generator never produced {ch:?} in 500 names");
    }
}

fn note_config(known: Vec<String>) -> Config {
    Config {
        schema_version: 2,
        rules: Vec::new(),
        record_types: vec![(
            "note".to_string(),
            RecordTypeConfig {
                dir: "docs/notes".to_string(),
                required_fields: Vec::new(),
                header_shape: HeaderShape::default(),
                prefix: None,
                header_layout: None,
                known_fields: Some(known),
                pointer_fields: None,
                narrative_fields: None,
                spec: None,
                relation_fields: None,
            },
        )],
    }
}

#[test]
fn every_field_a_record_carries_is_either_accepted_or_reported() {
    let mut gen = Gen(0xA11CE);
    for _ in 0..200 {
        let declared = gen.field_name();
        let written = gen.field_name();
        let config = note_config(vec![declared.clone()]);
        let body = format!("> {written}: x\n");
        let record = Record {
            path: "docs/notes/0001-x.md".to_string(),
            record_type: "note".to_string(),
            type_prefix: "NOTE".to_string(),
            header: parse(&body),
        };
        assert_eq!(
            record.header.fields.len(),
            1,
            "declared {declared:?}, wrote {written:?}: the parser did not recover the generated field"
        );
        assert_eq!(record.header.fields[0].key, written);
        let (_, findings) = header_field_set_consistency(&[record], &config);
        let expected = usize::from(written != declared);
        assert_eq!(findings.len(), expected, "declared {declared:?}, wrote {written:?}: expected {expected} finding(s)");
    }
}

#[test]
fn every_record_and_field_rule_can_report_examined_below_eligible() {
    let path = "docs/notes/no-number-here.md".to_string();
    let body = "this is not a header at all\n";
    let record = Record {
        path: path.clone(),
        record_type: "note".to_string(),
        type_prefix: "NOTE".to_string(),
        header: parse(body),
    };
    let records = [record];
    let fields = |names: &[&str]| -> Vec<String> { names.iter().map(|s| s.to_string()).collect() };
    let declared = fields(&["Status", "Embodiment", "Realized-by", "Supersedes / Superseded-by", "Derives-from", "Blocked-on"]);
    let config = Config {
        schema_version: 2,
        rules: Vec::new(),
        record_types: vec![(
            "note".to_string(),
            RecordTypeConfig {
                dir: "docs/notes".to_string(),
                required_fields: declared.clone(),
                header_shape: Default::default(),
                prefix: None,
                header_layout: Some(HeaderLayout::OnePerLine),
                known_fields: Some(declared.clone()),
                pointer_fields: Some(fields(&["Derives-from"])),
                narrative_fields: Some(fields(&["Blocked-on"])),
                spec: None,
                relation_fields: None,
            },
        )],
    };
    let full_text = vec![(path.clone(), body.to_string())];
    let (index, collisions) = build_index_reporting_collisions(&records);
    let present: Vec<String> = Vec::new();
    let cases: Vec<(&str, (RuleExecution, Vec<Finding>))> = vec![
        ("header.required-fields", rules::header_required_fields(&records, &config)),
        ("header.layout-consistency", rules::header_layout_consistency(&records, &config)),
        ("header.field-set-consistency", rules::header_field_set_consistency(&records, &config)),
        ("header.pointer-field-clean", rules::header_pointer_field_clean(&records, &config)),
        ("field.quality", rules::field_quality(&records, &config)),
        ("field.pending", rules::field_pending(&records, &config)),
        ("filename.title-consistency", rules::filename_title_consistency(&records, &full_text)),
        ("revision-log.change-class-required", rules::revision_log_change_class(&records, &full_text)),
        ("identity.collision", rules::identity_collision(&records, collisions)),
        ("pointer.resolution", rules::pointer_resolution(&records, &config, &index)),
        ("pointer.target-status", rules::pointer_target_status(&records, &config, &[], &index)),
        ("narrative-field.stale", rules::narrative_field_stale(&records, &config, &[], &index)),
        ("relation.supersession-reciprocity", rules::supersession_reciprocity(&records, &config, &index)),
        ("embodiment.consistency", rules::embodiment_consistency(&records, &config, &Vec::new())),
        ("embodiment.locator-exists", rules::embodiment_locator_exists(&records, &config, &present)),
        (
            "embodiment.locator-promotion-candidate",
            rules::embodiment_locator_promotion_candidate(&records, &config),
        ),
    ];
    let mut tautological = Vec::new();
    for (id, (exec, _)) in cases {
        let population = exec.population.unwrap_or_else(|| panic!("{id} reported no population"));
        assert!(population.eligible() > 0, "{id}: the fixture must hand it candidates, or the gap below is vacuous");
        if population.examined() >= population.eligible() {
            tautological.push(format!("{id} ({}/{})", population.eligible(), population.examined()));
        }
    }
    assert!(tautological.is_empty(), "these rules judged every candidate of a record with nothing readable: {tautological:?}");
}

#[test]
fn a_seed_reproduces_its_counterexample() {
    let a = first_counterexample(case_insensitive_matcher, 500, 0xC0FFEE);
    let b = first_counterexample(case_insensitive_matcher, 500, 0xC0FFEE);
    assert_eq!(a, b);
    assert!(a.is_some());
}
