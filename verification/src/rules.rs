//! Every rule this build ships, by id, and the rules themselves. Each rule
//! states the population it was handed -- every candidate, and what it
//! decided about each -- beside its findings, so a rule that examined
//! nothing cannot pass for one that found nothing.
use crate::config::{
    default_field, dedup, list_or_empty, lookup, Config, RecordTypeConfig, RelationFields, RelationRole,
    role_key, all_roles,
};
use crate::document::{
    elide, elided, entry_views, find_first_h1, find_revision_log_entries, first_h1, revision_entries, title_number,
    trim_char, EntryV,
};
use crate::embodiment::{embodiment, locators, realized};
use crate::field_state::{classify, field_state, is_retired_placeholder, retired_placeholder};
use crate::header::{duplicates, get_spec, FieldV, Header, HeaderField, HeaderLayout, HeaderShape};
use crate::record::{filename_number_spec, file_name, file_name_exec, governed_filename, is_governed_record_filename, Record};
use crate::references::{
    scan_references, scanned, collision_views, is_record_reference, is_reference, references, resolve,
};
use crate::values::{normalize, normalize_exec};
use crate::FieldState;
use crate::order::{path_distinct, path_sorted, sort_paths, sort_strings, sorted};
use crate::report::{
    census, census_records, contains_string, examined_paths, finding_of, finding_views,
    new_finding, population_of, string_views, Finding, FindingSeverity, FindingView, Outcome,
    PopulationUnit, RuleExecution, RuleStatus,
};
use crate::text::{
    ends_with, ends_with_exec, lines, lines_exec, words, words_exec, decimal, decimal_text, decimal_value, parse_u64, parses_u64, append, chars_of, to_lowercase, unicode_lower, split_char, split_char_exec, string_of, views, copy_str, debug_str, debug_text, eq_ignore_case, join, join_strings, seq_eq,
    seq_eq_ignore_case, str_eq, trim, trim_vec,
};
use crate::waiver::{lex_le, lex_le_exec};
use vstd::prelude::*;

pub use crate::embodiment::{compute_embodiment, parse_realized_by, realized_by_locator_paths, RealizedBy};
pub use crate::graph::RelationKind;
pub use crate::references::{
    build_index_reporting_collisions, build_normalized_index, extract_references, IdentifierCollision,
    RecordIndex,
};

verus! {

pub const RULE_HEADER_REQUIRED_FIELDS: &'static str = "header.required-fields";
pub const RULE_HEADER_LAYOUT_CONSISTENCY: &'static str = "header.layout-consistency";
pub const RULE_HEADER_FIELD_SET_CONSISTENCY: &'static str = "header.field-set-consistency";
pub const RULE_TYPE_NO_DECLARED_SPEC: &'static str = "type.no-declared-spec";
pub const RULE_TYPE_DIR_MATCHES_NOTHING: &'static str = "type.dir-matches-nothing";
pub const RULE_TYPE_RECORD_OUTSIDE_DECLARED_DIR: &'static str = "type.record-outside-declared-dir";
pub const RULE_IDENTITY_COLLISION: &'static str = "identity.collision";
pub const RULE_HEADER_DEPRECATED_SHAPE: &'static str = "header.deprecated-shape";
pub const RULE_CONFIG_POINTER_DECLARATION_MISSING: &'static str = "config.pointer-declaration-missing";
pub const RULE_CONFIG_POINTER_FIELD_NOT_KNOWN: &'static str = "config.pointer-field-not-known";
pub const RULE_CONFIG_POINTER_NARRATIVE_OVERLAP: &'static str = "config.pointer-narrative-overlap";
pub const RULE_CONFIG_HEADER_NONE_HAS_NO_REQUIRED_FIELDS: &'static str = "config.header-none-has-no-required-fields";
pub const RULE_POINTER_RESOLUTION: &'static str = "pointer.resolution";
pub const RULE_POINTER_TARGET_STATUS: &'static str = "pointer.target-status";
pub const RULE_HEADER_POINTER_FIELD_CLEAN: &'static str = "header.pointer-field-clean";
pub const RULE_NARRATIVE_FIELD_STALE: &'static str = "narrative-field.stale";
pub const RULE_FIELD_QUALITY: &'static str = "field.quality";
pub const RULE_FIELD_PENDING: &'static str = "field.pending";
pub const RULE_CLAIM_STATUS_AGREEMENT: &'static str = "claim.status-agreement";
pub const RULE_FILENAME_TITLE_CONSISTENCY: &'static str = "filename.title-consistency";
pub const RULE_REVISION_LOG_CHANGE_CLASS_REQUIRED: &'static str = "revision-log.change-class-required";
pub const RULE_EMBODIMENT_CONSISTENCY: &'static str = "embodiment.consistency";
pub const RULE_EMBODIMENT_LOCATOR_EXISTS: &'static str = "embodiment.locator-exists";
pub const RULE_EMBODIMENT_LOCATOR_PROMOTION_CANDIDATE: &'static str = "embodiment.locator-promotion-candidate";
pub const RULE_RELATION_SUPERSESSION_RECIPROCITY: &'static str = "relation.supersession-reciprocity";
pub const RULE_RELATION_TARGET_STATUS_UNDECLARED: &'static str = "relation.target-status-undeclared";
pub const RULE_CONFIG_SCOPE_MATCHES_NOTHING: &'static str = "config.scope-matches-nothing";
pub const RULE_FIELD_UNTRIMMED_VALUE: &'static str = "field.untrimmed-value";
pub const RULE_HEADER_FIELD_CASE_MISMATCH: &'static str = "header.field-case-mismatch";
pub const RULE_CONFIG_RELATION_FIELD_NOT_KNOWN: &'static str = "config.relation-field-not-known";
pub const RULE_CONFIG_KNOWN_FIELDS_DECLARATION_MISSING: &'static str = "config.known-fields-declaration-missing";

/// Every rule id this build ships, in declaration order.
pub open spec fn rule_ids() -> Seq<Seq<char>> {
    seq![
        RULE_HEADER_REQUIRED_FIELDS@,
        RULE_HEADER_LAYOUT_CONSISTENCY@,
        RULE_HEADER_FIELD_SET_CONSISTENCY@,
        RULE_TYPE_NO_DECLARED_SPEC@,
        RULE_TYPE_DIR_MATCHES_NOTHING@,
        RULE_TYPE_RECORD_OUTSIDE_DECLARED_DIR@,
        RULE_IDENTITY_COLLISION@,
        RULE_HEADER_DEPRECATED_SHAPE@,
        RULE_CONFIG_POINTER_DECLARATION_MISSING@,
        RULE_CONFIG_POINTER_FIELD_NOT_KNOWN@,
        RULE_CONFIG_POINTER_NARRATIVE_OVERLAP@,
        RULE_POINTER_RESOLUTION@,
        RULE_POINTER_TARGET_STATUS@,
        RULE_HEADER_POINTER_FIELD_CLEAN@,
        RULE_NARRATIVE_FIELD_STALE@,
        RULE_FIELD_QUALITY@,
        RULE_FIELD_PENDING@,
        RULE_CLAIM_STATUS_AGREEMENT@,
        RULE_FILENAME_TITLE_CONSISTENCY@,
        RULE_REVISION_LOG_CHANGE_CLASS_REQUIRED@,
        RULE_EMBODIMENT_CONSISTENCY@,
        RULE_EMBODIMENT_LOCATOR_EXISTS@,
        RULE_EMBODIMENT_LOCATOR_PROMOTION_CANDIDATE@,
        RULE_RELATION_SUPERSESSION_RECIPROCITY@,
        RULE_CONFIG_SCOPE_MATCHES_NOTHING@,
        RULE_FIELD_UNTRIMMED_VALUE@,
        RULE_HEADER_FIELD_CASE_MISMATCH@,
        RULE_CONFIG_HEADER_NONE_HAS_NO_REQUIRED_FIELDS@,
        RULE_CONFIG_RELATION_FIELD_NOT_KNOWN@,
        RULE_CONFIG_KNOWN_FIELDS_DECLARATION_MISSING@,
        RULE_RELATION_TARGET_STATUS_UNDECLARED@,
    ]
}

/// Every rule id this build ships. A config naming any other rule is
/// refused at load time rather than silently never running it.
pub fn all_rules() -> (r: Vec<&'static str>)
    ensures
        r@.map_values(|s: &str| s@) == rule_ids(),
{
    let r = vec![
        RULE_HEADER_REQUIRED_FIELDS,
        RULE_HEADER_LAYOUT_CONSISTENCY,
        RULE_HEADER_FIELD_SET_CONSISTENCY,
        RULE_TYPE_NO_DECLARED_SPEC,
        RULE_TYPE_DIR_MATCHES_NOTHING,
        RULE_TYPE_RECORD_OUTSIDE_DECLARED_DIR,
        RULE_IDENTITY_COLLISION,
        RULE_HEADER_DEPRECATED_SHAPE,
        RULE_CONFIG_POINTER_DECLARATION_MISSING,
        RULE_CONFIG_POINTER_FIELD_NOT_KNOWN,
        RULE_CONFIG_POINTER_NARRATIVE_OVERLAP,
        RULE_POINTER_RESOLUTION,
        RULE_POINTER_TARGET_STATUS,
        RULE_HEADER_POINTER_FIELD_CLEAN,
        RULE_NARRATIVE_FIELD_STALE,
        RULE_FIELD_QUALITY,
        RULE_FIELD_PENDING,
        RULE_CLAIM_STATUS_AGREEMENT,
        RULE_FILENAME_TITLE_CONSISTENCY,
        RULE_REVISION_LOG_CHANGE_CLASS_REQUIRED,
        RULE_EMBODIMENT_CONSISTENCY,
        RULE_EMBODIMENT_LOCATOR_EXISTS,
        RULE_EMBODIMENT_LOCATOR_PROMOTION_CANDIDATE,
        RULE_RELATION_SUPERSESSION_RECIPROCITY,
        RULE_CONFIG_SCOPE_MATCHES_NOTHING,
        RULE_FIELD_UNTRIMMED_VALUE,
        RULE_HEADER_FIELD_CASE_MISMATCH,
        RULE_CONFIG_HEADER_NONE_HAS_NO_REQUIRED_FIELDS,
        RULE_CONFIG_RELATION_FIELD_NOT_KNOWN,
        RULE_CONFIG_KNOWN_FIELDS_DECLARATION_MISSING,
        RULE_RELATION_TARGET_STATUS_UNDECLARED,
    ];
    assert(r@.map_values(|s: &str| s@) =~= rule_ids());
    r
}


/// The rules that derive a record's identity from its filename's type
/// prefix: a corpus with no prefix gives them nothing to examine.
pub open spec fn identity_dependent_ids() -> Seq<Seq<char>> {
    seq![
        RULE_POINTER_RESOLUTION@,
        RULE_POINTER_TARGET_STATUS@,
        RULE_FILENAME_TITLE_CONSISTENCY@,
        RULE_RELATION_SUPERSESSION_RECIPROCITY@,
        RULE_NARRATIVE_FIELD_STALE@,
    ]
}

/// The rules that derive a record's identity from its filename's prefix.
pub fn identity_dependent_rules() -> (r: Vec<&'static str>)
    ensures
        r@.map_values(|s: &str| s@) == identity_dependent_ids(),
{
    let r = vec![
        RULE_POINTER_RESOLUTION,
        RULE_POINTER_TARGET_STATUS,
        RULE_FILENAME_TITLE_CONSISTENCY,
        RULE_RELATION_SUPERSESSION_RECIPROCITY,
        RULE_NARRATIVE_FIELD_STALE,
    ];
    assert(r@.map_values(|s: &str| s@) =~= identity_dependent_ids());
    r
}

/// Whether `rule` derives identities from filename prefixes.
pub fn identity_dependent(rule: &str) -> (r: bool)
    ensures
        r == identity_dependent_ids().contains(rule@),
{
    let ids = identity_dependent_rules();
    let ghost v = ids@.map_values(|s: &str| s@);
    let mut i: usize = 0;
    while i < ids.len()
        invariant
            i <= ids.len(),
            v == ids@.map_values(|s: &str| s@),
            v == identity_dependent_ids(),
            forall|k: int| 0 <= k < i ==> v[k] != rule@,
        decreases ids.len() - i,
    {
        if str_eq(ids[i], rule) {
            assert(v[i as int] == rule@);
            return true;
        }
        i += 1;
    }
    false
}

/// The rules whose findings name a file outside the corpus (a claim file),
/// exempt from scoping a run to record paths.
pub fn rules_reporting_outside_the_corpus() -> (r: Vec<&'static str>)
    ensures
        r@.map_values(|s: &str| s@) == seq![RULE_CLAIM_STATUS_AGREEMENT@],
{
    let r = vec![RULE_CLAIM_STATUS_AGREEMENT];
    assert(r@.map_values(|s: &str| s@) =~= seq![RULE_CLAIM_STATUS_AGREEMENT@]);
    r
}

// ---------------------------------------------------------------------------
// What a rule reports about its run
// ---------------------------------------------------------------------------

/// The findings of each candidate, in candidate order.
pub open spec fn findings_by<A>(s: Seq<A>, f: spec_fn(A) -> Seq<FindingView>) -> Seq<FindingView>
    decreases s.len(),
{
    if s.len() == 0 {
        Seq::empty()
    } else {
        findings_by(s.drop_last(), f) + f(s.last())
    }
}

/// What the rule decided about each candidate, in candidate order.
pub open spec fn outcomes_by<A>(s: Seq<A>, f: spec_fn(A) -> Outcome) -> Seq<Outcome>
    decreases s.len(),
{
    if s.len() == 0 {
        Seq::empty()
    } else {
        outcomes_by(s.drop_last(), f).push(f(s.last()))
    }
}

/// The record each candidate belongs to, in candidate order.
pub open spec fn paths_by<A>(s: Seq<A>, f: spec_fn(A) -> Seq<char>) -> Seq<Seq<char>>
    decreases s.len(),
{
    if s.len() == 0 {
        Seq::empty()
    } else {
        paths_by(s.drop_last(), f).push(f(s.last()))
    }
}

pub proof fn lemma_by_len<A>(s: Seq<A>, f: spec_fn(A) -> Outcome, g: spec_fn(A) -> Seq<char>)
    ensures
        outcomes_by(s, f).len() == s.len(),
        paths_by(s, g).len() == s.len(),
    decreases s.len(),
{
    if s.len() > 0 {
        lemma_by_len(s.drop_last(), f, g);
    }
}

/// A rule that ran over records: its id, its population counted in `unit`
/// from `outs`, and the distinct records it reached a verdict on, sorted as
/// paths.
pub open spec fn ran_as(
    e: RuleExecution,
    rule: Seq<char>,
    unit: PopulationUnit,
    outs: Seq<Outcome>,
    paths: Seq<Seq<char>>,
) -> bool {
    &&& e.rule@ == rule
    &&& e.status == RuleStatus::Ran
    &&& e.population matches Some(p) && p@ == population_of(unit, outs)
    &&& string_views(e.examined_records@) == path_sorted(path_distinct(examined_paths(outs, paths)))
}

/// A rule that ran over declarations rather than records: it names no
/// record as examined.
pub open spec fn ran_on_config(
    e: RuleExecution,
    rule: Seq<char>,
    unit: PopulationUnit,
    outs: Seq<Outcome>,
) -> bool {
    &&& e.rule@ == rule
    &&& e.status == RuleStatus::Ran
    &&& e.population matches Some(p) && p@ == population_of(unit, outs)
    &&& e.examined_records@.len() == 0
}

fn finish_records(rule: &str, unit: PopulationUnit, outcomes: &Vec<Outcome>, paths: &Vec<String>) -> (e:
    RuleExecution)
    requires
        outcomes@.len() == paths@.len(),
    ensures
        ran_as(e, rule@, unit, outcomes@, string_views(paths@)),
{
    let (population, examined_records) = census_records(unit, outcomes, paths);
    RuleExecution { rule: copy_str(rule), population: Some(population), status: RuleStatus::Ran, examined_records }
}

fn finish_config(rule: &str, unit: PopulationUnit, outcomes: &Vec<Outcome>) -> (e: RuleExecution)
    ensures
        ran_on_config(e, rule@, unit, outcomes@),
{
    let population = census(unit, outcomes);
    RuleExecution {
        rule: copy_str(rule),
        population: Some(population),
        status: RuleStatus::Ran,
        examined_records: Vec::new(),
    }
}

// ---------------------------------------------------------------------------
// Config-level rules: one candidate per declared record type
// ---------------------------------------------------------------------------

/// The declared record type names, each once, sorted.
pub open spec fn type_names(config: Config) -> Seq<Seq<char>> {
    sorted(dedup(config.record_types@.map_values(|e: (String, RecordTypeConfig)| e.0@)))
}

pub(crate) fn sorted_type_names(config: &Config) -> (r: Vec<String>)
    ensures
        string_views(r@) == type_names(*config),
{
    let ghost keys = config.record_types@.map_values(|e: (String, RecordTypeConfig)| e.0@);
    let mut names: Vec<String> = Vec::new();
    let mut i: usize = 0;
    while i < config.record_types.len()
        invariant
            i <= config.record_types.len(),
            keys == config.record_types@.map_values(|e: (String, RecordTypeConfig)| e.0@),
            string_views(names@) == dedup(keys.take(i as int)),
        decreases config.record_types.len() - i,
    {
        assert(keys.take(i + 1).drop_last() =~= keys.take(i as int));
        assert(keys[i as int] == config.record_types@[i as int].0@);
        if !contains_string(&names, config.record_types[i].0.as_str()) {
            let ghost before = string_views(names@);
            names.push(config.record_types[i].0.clone());
            assert(string_views(names@) =~= before.push(keys[i as int]));
        }
        i += 1;
    }
    assert(keys.take(config.record_types.len() as int) =~= keys);
    sort_strings(names)
}

/// The schema-inventory checks, each judging one declared record type.
#[derive(Debug, Clone, Copy, PartialEq, Eq, Structural)]
pub enum TypeCheck {
    NoDeclaredSpec,
    DeprecatedShape,
    PointerDeclarationMissing,
    KnownFieldsDeclarationMissing,
    PointerFieldNotKnown,
    RelationFieldNotKnown,
    PointerNarrativeOverlap,
    HeaderNoneHasNoRequiredFields,
}

pub open spec fn type_check_rule(check: TypeCheck) -> Seq<char> {
    match check {
        TypeCheck::NoDeclaredSpec => RULE_TYPE_NO_DECLARED_SPEC@,
        TypeCheck::DeprecatedShape => RULE_HEADER_DEPRECATED_SHAPE@,
        TypeCheck::PointerDeclarationMissing => RULE_CONFIG_POINTER_DECLARATION_MISSING@,
        TypeCheck::KnownFieldsDeclarationMissing => RULE_CONFIG_KNOWN_FIELDS_DECLARATION_MISSING@,
        TypeCheck::PointerFieldNotKnown => RULE_CONFIG_POINTER_FIELD_NOT_KNOWN@,
        TypeCheck::RelationFieldNotKnown => RULE_CONFIG_RELATION_FIELD_NOT_KNOWN@,
        TypeCheck::PointerNarrativeOverlap => RULE_CONFIG_POINTER_NARRATIVE_OVERLAP@,
        TypeCheck::HeaderNoneHasNoRequiredFields => RULE_CONFIG_HEADER_NONE_HAS_NO_REQUIRED_FIELDS@,
    }
}

pub open spec fn type_check_severity(check: TypeCheck) -> FindingSeverity {
    match check {
        TypeCheck::NoDeclaredSpec | TypeCheck::DeprecatedShape => FindingSeverity::Warning,
        _ => FindingSeverity::Error,
    }
}

/// `[a, b]` as `{:?}` renders a list of strings.
pub open spec fn debug_list(items: Seq<Seq<char>>) -> Seq<char> {
    "["@ + join(items.map_values(|s: Seq<char>| debug_text(s)), ", "@) + "]"@
}

/// One finding per pointer/narrative field the type does not declare.
pub open spec fn unknown_alias_findings(
    path: Seq<char>,
    name: Seq<char>,
    t: RecordTypeConfig,
    fields: Seq<Seq<char>>,
) -> Seq<FindingView>
    decreases fields.len(),
{
    if fields.len() == 0 {
        Seq::empty()
    } else {
        let f = fields.last();
        unknown_alias_findings(path, name, t, fields.drop_last()) + if t.declares_spec(f) {
            Seq::empty()
        } else {
            seq![
                finding_of(
                    RULE_CONFIG_POINTER_FIELD_NOT_KNOWN@,
                    FindingSeverity::Error,
                    path,
                    None,
                    "record type '"@ + name + "' declares '"@ + f
                        + "' as a pointer/narrative field, but it isn't in required_fields or known_fields"@,
                ),
            ]
        }
    }
}

/// One finding per role whose declared override the type does not declare.
pub open spec fn unknown_role_findings(
    path: Seq<char>,
    name: Seq<char>,
    t: RecordTypeConfig,
    rf: RelationFields,
    roles: Seq<RelationRole>,
) -> Seq<FindingView>
    decreases roles.len(),
{
    if roles.len() == 0 {
        Seq::empty()
    } else {
        let role = roles.last();
        unknown_role_findings(path, name, t, rf, roles.drop_last()) + match rf.override_of(role) {
            Some(f) => if t.declares_spec(f@) {
                Seq::empty()
            } else {
                seq![
                    finding_of(
                        RULE_CONFIG_RELATION_FIELD_NOT_KNOWN@,
                        FindingSeverity::Error,
                        path,
                        None,
                        "record type '"@ + name + "' declares '"@ + f@ + "' for relation_fields."@
                            + role_key(role) + ", but it isn't in required_fields or known_fields"@,
                    ),
                ]
            },
            None => Seq::empty(),
        }
    }
}

/// One finding per narrative field also declared as a pointer field.
pub open spec fn overlap_findings(
    path: Seq<char>,
    name: Seq<char>,
    pointers: Seq<Seq<char>>,
    narratives: Seq<Seq<char>>,
) -> Seq<FindingView>
    decreases narratives.len(),
{
    if narratives.len() == 0 {
        Seq::empty()
    } else {
        let f = narratives.last();
        overlap_findings(path, name, pointers, narratives.drop_last()) + if pointers.contains(f) {
            seq![
                finding_of(
                    RULE_CONFIG_POINTER_NARRATIVE_OVERLAP@,
                    FindingSeverity::Error,
                    path,
                    None,
                    "record type '"@ + name + "' declares '"@ + f
                        + "' in both pointer_fields and narrative_fields -- a field must be exactly one kind"@,
                ),
            ]
        } else {
            Seq::empty()
        }
    }
}

/// A single config finding for `check` about the type `name`.
pub open spec fn type_finding(check: TypeCheck, path: Seq<char>, message: Seq<char>) -> Seq<FindingView> {
    seq![finding_of(type_check_rule(check), type_check_severity(check), path, None, message)]
}

/// What `check` reports about the declared type `name`, configured as `t`.
pub open spec fn type_findings(check: TypeCheck, path: Seq<char>, name: Seq<char>, t: RecordTypeConfig) -> Seq<
    FindingView,
> {
    match check {
        TypeCheck::NoDeclaredSpec => if t.spec is None {
            type_finding(
                check,
                path,
                "record type '"@ + name
                    + "' has no declared spec -- add `spec = \"SPEC-N\"` once one exists, or leave undeclared if ADR-41's editorial judgment says one isn't warranted"@,
            )
        } else {
            Seq::empty()
        },
        TypeCheck::DeprecatedShape => if t.header_shape == HeaderShape::Blockquote || t.header_shape
            == HeaderShape::BoldList {
            type_finding(
                check,
                path,
                "record type '"@ + name
                    + "' declares a deprecated header shape -- migrate to `header_shape = \"yaml-frontmatter\"` (ADR-33)"@,
            )
        } else {
            Seq::empty()
        },
        TypeCheck::PointerDeclarationMissing => if (t.pointer_fields is Some || t.narrative_fields is Some)
            && (t.pointer_fields is None || t.narrative_fields is None) {
            type_finding(
                check,
                path,
                "record type '"@ + name
                    + "' declares only one of pointer_fields/narrative_fields -- declare both explicitly, even as `[]`, since omitting one is not the same as declaring zero fields of that kind"@,
            )
        } else {
            Seq::empty()
        },
        TypeCheck::KnownFieldsDeclarationMissing => if t.header_shape != HeaderShape::Headerless
            && t.known_fields is None {
            type_finding(
                check,
                path,
                "record type '"@ + name
                    + "' does not declare known_fields -- declare it explicitly, even as `[]`, to make this type's field-set governance a conscious choice rather than an unchecked default"@,
            )
        } else {
            Seq::empty()
        },
        TypeCheck::PointerFieldNotKnown => unknown_alias_findings(
            path,
            name,
            t,
            list_or_empty(t.pointer_fields) + list_or_empty(t.narrative_fields),
        ),
        TypeCheck::RelationFieldNotKnown => match t.relation_fields {
            Some(rf) => unknown_role_findings(path, name, t, rf, all_roles()),
            None => Seq::empty(),
        },
        TypeCheck::PointerNarrativeOverlap => match (t.pointer_fields, t.narrative_fields) {
            (Some(p), Some(n)) => overlap_findings(path, name, string_views(p@), string_views(n@)),
            _ => Seq::empty(),
        },
        TypeCheck::HeaderNoneHasNoRequiredFields => if t.header_shape == HeaderShape::Headerless
            && t.required_fields@.len() > 0 {
            type_finding(
                check,
                path,
                "record type '"@ + name + "' declares header_shape: none but required_fields "@
                    + debug_list(string_views(t.required_fields@))
                    + " -- a type with no header has nowhere for a required field to be"@,
            )
        } else {
            Seq::empty()
        },
    }
}

/// What `check` reports about the type named `name` in `config`.
pub open spec fn named_type_findings(check: TypeCheck, config: Config, path: Seq<char>, name: Seq<char>) -> Seq<
    FindingView,
> {
    match lookup(config.record_types@, name) {
        Some(t) => type_findings(check, path, name, t),
        None => Seq::empty(),
    }
}

/// `{:?}` of a list of strings.
pub fn debug_strings(items: &Vec<String>) -> (r: String)
    ensures
        r@ == debug_list(string_views(items@)),
{
    let mut parts: Vec<String> = Vec::new();
    let mut i: usize = 0;
    while i < items.len()
        invariant
            i <= items.len(),
            parts@.map_values(|p: String| p@) == string_views(items@).take(i as int).map_values(
                |s: Seq<char>| debug_text(s),
            ),
        decreases items.len() - i,
    {
        let d = debug_str(items[i].as_str());
        let ghost before = parts@.map_values(|p: String| p@);
        parts.push(d);
        assert(parts@.map_values(|p: String| p@) =~= before.push(debug_text(items@[i as int]@)));
        assert(string_views(items@).take(i + 1).map_values(|s: Seq<char>| debug_text(s))
            =~= string_views(items@).take(i as int).map_values(|s: Seq<char>| debug_text(s)).push(
            debug_text(items@[i as int]@),
        ));
        i += 1;
    }
    assert(string_views(items@).take(items.len() as int) =~= string_views(items@));
    let mut r = copy_str("[");
    let j = join_strings(&parts, ", ");
    append(&mut r, j.as_str());
    append(&mut r, "]");
    r
}

fn config_finding(check: TypeCheck, path: &str, message: String) -> (f: Finding)
    ensures
        f@ == finding_of(type_check_rule(check), type_check_severity(check), path@, None, message@),
{
    let (rule, severity) = match check {
        TypeCheck::NoDeclaredSpec => (RULE_TYPE_NO_DECLARED_SPEC, FindingSeverity::Warning),
        TypeCheck::DeprecatedShape => (RULE_HEADER_DEPRECATED_SHAPE, FindingSeverity::Warning),
        TypeCheck::PointerDeclarationMissing => (RULE_CONFIG_POINTER_DECLARATION_MISSING, FindingSeverity::Error),
        TypeCheck::KnownFieldsDeclarationMissing => (
            RULE_CONFIG_KNOWN_FIELDS_DECLARATION_MISSING,
            FindingSeverity::Error,
        ),
        TypeCheck::PointerFieldNotKnown => (RULE_CONFIG_POINTER_FIELD_NOT_KNOWN, FindingSeverity::Error),
        TypeCheck::RelationFieldNotKnown => (RULE_CONFIG_RELATION_FIELD_NOT_KNOWN, FindingSeverity::Error),
        TypeCheck::PointerNarrativeOverlap => (RULE_CONFIG_POINTER_NARRATIVE_OVERLAP, FindingSeverity::Error),
        TypeCheck::HeaderNoneHasNoRequiredFields => (
            RULE_CONFIG_HEADER_NONE_HAS_NO_REQUIRED_FIELDS,
            FindingSeverity::Error,
        ),
    };
    new_finding(rule, severity, path, None, message)
}

/// "record type '{name}'" followed by `rest`.
fn type_message(name: &str, rest: &str) -> (r: String)
    ensures
        r@ == "record type '"@ + name@ + rest@,
{
    let mut m = copy_str("record type '");
    append(&mut m, name);
    append(&mut m, rest);
    m
}

fn alias_findings(path: &str, name: &str, t: &RecordTypeConfig, fields: &Vec<String>) -> (r: Vec<Finding>)
    ensures
        finding_views(r@) == unknown_alias_findings(path@, name@, *t, string_views(fields@)),
{
    let ghost fs = string_views(fields@);
    let mut r: Vec<Finding> = Vec::new();
    let mut j: usize = 0;
    while j < fields.len()
        invariant
            j <= fields.len(),
            fs == string_views(fields@),
            finding_views(r@) == unknown_alias_findings(path@, name@, *t, fs.take(j as int)),
        decreases fields.len() - j,
    {
        assert(fs.take(j + 1).drop_last() =~= fs.take(j as int));
        assert(fs.take(j + 1).last() == fields@[j as int]@);
        if !t.declares(fields[j].as_str()) {
            let mut m = type_message(name, "' declares '");
            append(&mut m, fields[j].as_str());
            append(&mut m, "' as a pointer/narrative field, but it isn't in required_fields or known_fields");
            let ghost before = finding_views(r@);
            r.push(config_finding(TypeCheck::PointerFieldNotKnown, path, m));
            assert(finding_views(r@) =~= before + seq![r@.last()@]);
        }
        j += 1;
    }
    assert(fs.take(fields.len() as int) =~= fs);
    r
}

fn role_findings(path: &str, name: &str, t: &RecordTypeConfig, rf: &RelationFields) -> (r: Vec<Finding>)
    ensures
        finding_views(r@) == unknown_role_findings(path@, name@, *t, *rf, all_roles()),
{
    let roles = RelationRole::all();
    let mut r: Vec<Finding> = Vec::new();
    let mut j: usize = 0;
    while j < 4
        invariant
            j <= 4,
            roles@ == all_roles(),
            finding_views(r@) == unknown_role_findings(path@, name@, *t, *rf, all_roles().take(j as int)),
        decreases 4 - j,
    {
        let role = roles[j];
        assert(all_roles().take(j + 1).drop_last() =~= all_roles().take(j as int));
        assert(all_roles().take(j + 1).last() == role);
        match rf.get(role) {
            Some(f) => {
                if !t.declares(f.as_str()) {
                    let mut m = type_message(name, "' declares '");
                    append(&mut m, f.as_str());
                    append(&mut m, "' for relation_fields.");
                    append(&mut m, role.config_key());
                    append(&mut m, ", but it isn't in required_fields or known_fields");
                    let ghost before = finding_views(r@);
                    r.push(config_finding(TypeCheck::RelationFieldNotKnown, path, m));
                    assert(finding_views(r@) =~= before + seq![r@.last()@]);
                }
            },
            None => {},
        }
        j += 1;
    }
    assert(all_roles().take(4) =~= all_roles());
    r
}

fn overlap(path: &str, name: &str, pointers: &Vec<String>, narratives: &Vec<String>) -> (r: Vec<Finding>)
    ensures
        finding_views(r@) == overlap_findings(path@, name@, string_views(pointers@), string_views(narratives@)),
{
    let ghost ns = string_views(narratives@);
    let mut r: Vec<Finding> = Vec::new();
    let mut j: usize = 0;
    while j < narratives.len()
        invariant
            j <= narratives.len(),
            ns == string_views(narratives@),
            finding_views(r@) == overlap_findings(path@, name@, string_views(pointers@), ns.take(j as int)),
        decreases narratives.len() - j,
    {
        assert(ns.take(j + 1).drop_last() =~= ns.take(j as int));
        assert(ns.take(j + 1).last() == narratives@[j as int]@);
        if contains_string(pointers, narratives[j].as_str()) {
            let mut m = type_message(name, "' declares '");
            append(&mut m, narratives[j].as_str());
            append(&mut m, "' in both pointer_fields and narrative_fields -- a field must be exactly one kind");
            let ghost before = finding_views(r@);
            r.push(config_finding(TypeCheck::PointerNarrativeOverlap, path, m));
            assert(finding_views(r@) =~= before + seq![r@.last()@]);
        }
        j += 1;
    }
    assert(ns.take(narratives.len() as int) =~= ns);
    r
}

/// `dst` followed by copies of `src`.
pub fn extend_strings(dst: &mut Vec<String>, src: &Vec<String>)
    ensures
        string_views(final(dst)@) == string_views(old(dst)@) + string_views(src@),
{
    let ghost start = string_views(dst@);
    let mut k: usize = 0;
    while k < src.len()
        invariant
            k <= src.len(),
            string_views(dst@) == start + string_views(src@).take(k as int),
        decreases src.len() - k,
    {
        let ghost before = string_views(dst@);
        let c = src[k].clone();
        dst.push(c);
        assert(string_views(dst@) =~= before.push(src@[k as int]@));
        assert(string_views(src@).take(k + 1) =~= string_views(src@).take(k as int).push(src@[k as int]@));
        k += 1;
    }
    assert(string_views(src@).take(src.len() as int) =~= string_views(src@));
}

fn one(f: Finding) -> (r: Vec<Finding>)
    ensures
        finding_views(r@) == seq![f@],
{
    let mut r = Vec::new();
    r.push(f);
    assert(finding_views(r@) =~= seq![f@]);
    r
}

fn judge_type(check: TypeCheck, path: &str, name: &str, t: &RecordTypeConfig) -> (r: Vec<Finding>)
    ensures
        finding_views(r@) == type_findings(check, path@, name@, *t),
{
    match check {
        TypeCheck::NoDeclaredSpec => {
            if t.spec.is_none() {
                let m = type_message(
                    name,
                    "' has no declared spec -- add `spec = \"SPEC-N\"` once one exists, or leave undeclared if ADR-41's editorial judgment says one isn't warranted",
                );
                one(config_finding(check, path, m))
            } else {
                Vec::new()
            }
        },
        TypeCheck::DeprecatedShape => {
            let deprecated = match t.header_shape {
                HeaderShape::Blockquote | HeaderShape::BoldList => true,
                HeaderShape::YamlFrontmatter | HeaderShape::Headerless => false,
            };
            if deprecated {
                let m = type_message(
                    name,
                    "' declares a deprecated header shape -- migrate to `header_shape = \"yaml-frontmatter\"` (ADR-33)",
                );
                one(config_finding(check, path, m))
            } else {
                Vec::new()
            }
        },
        TypeCheck::PointerDeclarationMissing => {
            let either = t.pointer_fields.is_some() || t.narrative_fields.is_some();
            if either && (t.pointer_fields.is_none() || t.narrative_fields.is_none()) {
                let m = type_message(
                    name,
                    "' declares only one of pointer_fields/narrative_fields -- declare both explicitly, even as `[]`, since omitting one is not the same as declaring zero fields of that kind",
                );
                one(config_finding(check, path, m))
            } else {
                Vec::new()
            }
        },
        TypeCheck::KnownFieldsDeclarationMissing => {
            if t.header_shape != HeaderShape::Headerless && t.known_fields.is_none() {
                let m = type_message(
                    name,
                    "' does not declare known_fields -- declare it explicitly, even as `[]`, to make this type's field-set governance a conscious choice rather than an unchecked default",
                );
                one(config_finding(check, path, m))
            } else {
                Vec::new()
            }
        },
        TypeCheck::PointerFieldNotKnown => {
            let mut fields: Vec<String> = Vec::new();
            match &t.pointer_fields {
                Some(p) => extend_strings(&mut fields, p),
                None => {},
            }
            let ghost first = string_views(fields@);
            assert(first =~= list_or_empty(t.pointer_fields));
            match &t.narrative_fields {
                Some(n) => extend_strings(&mut fields, n),
                None => {
                    assert(first + Seq::<Seq<char>>::empty() =~= first);
                },
            }
            alias_findings(path, name, t, &fields)
        },
        TypeCheck::RelationFieldNotKnown => match &t.relation_fields {
            Some(rf) => role_findings(path, name, t, rf),
            None => Vec::new(),
        },
        TypeCheck::PointerNarrativeOverlap => match (&t.pointer_fields, &t.narrative_fields) {
            (Some(p), Some(n)) => overlap(path, name, p, n),
            _ => Vec::new(),
        },
        TypeCheck::HeaderNoneHasNoRequiredFields => {
            if t.header_shape == HeaderShape::Headerless && t.required_fields.len() > 0 {
                let mut m = type_message(name, "' declares header_shape: none but required_fields ");
                let d = debug_strings(&t.required_fields);
                append(&mut m, d.as_str());
                append(&mut m, " -- a type with no header has nowhere for a required field to be");
                one(config_finding(check, path, m))
            } else {
                Vec::new()
            }
        },
    }
}

/// Runs `check` over every declared record type, in name order.
pub fn type_check(config: &Config, config_path: &str, check: TypeCheck) -> (r: (RuleExecution, Vec<Finding>))
    ensures
        ran_on_config(
            r.0,
            type_check_rule(check),
            PopulationUnit::RecordType,
            outcomes_by(type_names(*config), |n: Seq<char>| Outcome::Examined),
        ),
        finding_views(r.1@) == findings_by(
            type_names(*config),
            |n: Seq<char>| named_type_findings(check, *config, config_path@, n),
        ),
{
    let names = sorted_type_names(config);
    let ghost ns = string_views(names@);
    let mut outcomes: Vec<Outcome> = Vec::new();
    let mut findings: Vec<Finding> = Vec::new();
    let mut k: usize = 0;
    while k < names.len()
        invariant
            k <= names.len(),
            ns == string_views(names@),
            ns == type_names(*config),
            outcomes@ == outcomes_by(ns.take(k as int), |n: Seq<char>| Outcome::Examined),
            finding_views(findings@) == findings_by(
                ns.take(k as int),
                |n: Seq<char>| named_type_findings(check, *config, config_path@, n),
            ),
        decreases names.len() - k,
    {
        assert(ns.take(k + 1).drop_last() =~= ns.take(k as int));
        assert(ns.take(k + 1).last() == names@[k as int]@);
        let mut fs = match config.type_config(names[k].as_str()) {
            Some(t) => judge_type(check, config_path, names[k].as_str(), t),
            None => Vec::new(),
        };
        let ghost before = finding_views(findings@);
        let ghost add = finding_views(fs@);
        findings.append(&mut fs);
        assert(finding_views(findings@) =~= before + add);
        outcomes.push(Outcome::Examined);
        k += 1;
    }
    assert(ns.take(names.len() as int) =~= ns);
    let rule = match check {
        TypeCheck::NoDeclaredSpec => RULE_TYPE_NO_DECLARED_SPEC,
        TypeCheck::DeprecatedShape => RULE_HEADER_DEPRECATED_SHAPE,
        TypeCheck::PointerDeclarationMissing => RULE_CONFIG_POINTER_DECLARATION_MISSING,
        TypeCheck::KnownFieldsDeclarationMissing => RULE_CONFIG_KNOWN_FIELDS_DECLARATION_MISSING,
        TypeCheck::PointerFieldNotKnown => RULE_CONFIG_POINTER_FIELD_NOT_KNOWN,
        TypeCheck::RelationFieldNotKnown => RULE_CONFIG_RELATION_FIELD_NOT_KNOWN,
        TypeCheck::PointerNarrativeOverlap => RULE_CONFIG_POINTER_NARRATIVE_OVERLAP,
        TypeCheck::HeaderNoneHasNoRequiredFields => RULE_CONFIG_HEADER_NONE_HAS_NO_REQUIRED_FIELDS,
    };
    (finish_config(rule, PopulationUnit::RecordType, &outcomes), findings)
}

/// Which declared record types have no `spec` pointer: an inventory of the
/// schema itself, a signal to review and never a mandate to write one.
pub fn type_no_declared_spec(config: &Config, config_path: &str) -> (r: (RuleExecution, Vec<Finding>))
    ensures
        ran_on_config(
            r.0,
            RULE_TYPE_NO_DECLARED_SPEC@,
            PopulationUnit::RecordType,
            outcomes_by(type_names(*config), |n: Seq<char>| Outcome::Examined),
        ),
        finding_views(r.1@) == findings_by(
            type_names(*config),
            |n: Seq<char>| named_type_findings(TypeCheck::NoDeclaredSpec, *config, config_path@, n),
        ),
{
    type_check(config, config_path, TypeCheck::NoDeclaredSpec)
}

/// Which declared record types still declare a deprecated header shape
/// (`blockquote` or `bold-list`). `yaml-frontmatter` is the shape the project
/// grows, and a headerless type is a different axis, not a deprecated one.
pub fn header_deprecated_shape(config: &Config, config_path: &str) -> (r: (RuleExecution, Vec<Finding>))
    ensures
        ran_on_config(
            r.0,
            RULE_HEADER_DEPRECATED_SHAPE@,
            PopulationUnit::RecordType,
            outcomes_by(type_names(*config), |n: Seq<char>| Outcome::Examined),
        ),
        finding_views(r.1@) == findings_by(
            type_names(*config),
            |n: Seq<char>| named_type_findings(TypeCheck::DeprecatedShape, *config, config_path@, n),
        ),
{
    type_check(config, config_path, TypeCheck::DeprecatedShape)
}

/// A type declaring either `pointer_fields` or `narrative_fields` must
/// declare both, even as an empty list: omitting one is not the same as
/// deliberately declaring zero fields of that kind.
pub fn config_pointer_declaration_missing(config: &Config, config_path: &str) -> (r: (RuleExecution, Vec<Finding>))
    ensures
        ran_on_config(
            r.0,
            RULE_CONFIG_POINTER_DECLARATION_MISSING@,
            PopulationUnit::RecordType,
            outcomes_by(type_names(*config), |n: Seq<char>| Outcome::Examined),
        ),
        finding_views(r.1@) == findings_by(
            type_names(*config),
            |n: Seq<char>| named_type_findings(TypeCheck::PointerDeclarationMissing, *config, config_path@, n),
        ),
{
    type_check(config, config_path, TypeCheck::PointerDeclarationMissing)
}

/// A type with a header that declares no `known_fields` at all gets no
/// field-set governance; this rule makes that choice explicit. A headerless
/// type has nowhere for a field to be and is exempt.
pub fn config_known_fields_declaration_missing(config: &Config, config_path: &str) -> (r: (RuleExecution, Vec<Finding>))
    ensures
        ran_on_config(
            r.0,
            RULE_CONFIG_KNOWN_FIELDS_DECLARATION_MISSING@,
            PopulationUnit::RecordType,
            outcomes_by(type_names(*config), |n: Seq<char>| Outcome::Examined),
        ),
        finding_views(r.1@) == findings_by(
            type_names(*config),
            |n: Seq<char>| named_type_findings(TypeCheck::KnownFieldsDeclarationMissing, *config, config_path@, n),
        ),
{
    type_check(config, config_path, TypeCheck::KnownFieldsDeclarationMissing)
}

/// Every pointer or narrative field a type names must also be one of its own
/// declared fields (`required_fields` or `known_fields`), compared exactly.
pub fn config_pointer_field_not_known(config: &Config, config_path: &str) -> (r: (RuleExecution, Vec<Finding>))
    ensures
        ran_on_config(
            r.0,
            RULE_CONFIG_POINTER_FIELD_NOT_KNOWN@,
            PopulationUnit::RecordType,
            outcomes_by(type_names(*config), |n: Seq<char>| Outcome::Examined),
        ),
        finding_views(r.1@) == findings_by(
            type_names(*config),
            |n: Seq<char>| named_type_findings(TypeCheck::PointerFieldNotKnown, *config, config_path@, n),
        ),
{
    type_check(config, config_path, TypeCheck::PointerFieldNotKnown)
}

/// Every `relation_fields` override a type declares must also be one of its
/// own declared fields; otherwise no rule ever reads it.
pub fn config_relation_field_not_known(config: &Config, config_path: &str) -> (r: (RuleExecution, Vec<Finding>))
    ensures
        ran_on_config(
            r.0,
            RULE_CONFIG_RELATION_FIELD_NOT_KNOWN@,
            PopulationUnit::RecordType,
            outcomes_by(type_names(*config), |n: Seq<char>| Outcome::Examined),
        ),
        finding_views(r.1@) == findings_by(
            type_names(*config),
            |n: Seq<char>| named_type_findings(TypeCheck::RelationFieldNotKnown, *config, config_path@, n),
        ),
{
    type_check(config, config_path, TypeCheck::RelationFieldNotKnown)
}

/// A field must be exactly one kind: named in both `pointer_fields` and
/// `narrative_fields` of one type is a contradiction.
pub fn config_pointer_narrative_overlap(config: &Config, config_path: &str) -> (r: (RuleExecution, Vec<Finding>))
    ensures
        ran_on_config(
            r.0,
            RULE_CONFIG_POINTER_NARRATIVE_OVERLAP@,
            PopulationUnit::RecordType,
            outcomes_by(type_names(*config), |n: Seq<char>| Outcome::Examined),
        ),
        finding_views(r.1@) == findings_by(
            type_names(*config),
            |n: Seq<char>| named_type_findings(TypeCheck::PointerNarrativeOverlap, *config, config_path@, n),
        ),
{
    type_check(config, config_path, TypeCheck::PointerNarrativeOverlap)
}

/// A type declaring no header (`header_shape: none`) has nowhere for a field
/// to be, so a non-empty `required_fields` contradicts it.
pub fn config_header_none_has_no_required_fields(config: &Config, config_path: &str) -> (r: (RuleExecution, Vec<Finding>))
    ensures
        ran_on_config(
            r.0,
            RULE_CONFIG_HEADER_NONE_HAS_NO_REQUIRED_FIELDS@,
            PopulationUnit::RecordType,
            outcomes_by(type_names(*config), |n: Seq<char>| Outcome::Examined),
        ),
        finding_views(r.1@) == findings_by(
            type_names(*config),
            |n: Seq<char>| named_type_findings(TypeCheck::HeaderNoneHasNoRequiredFields, *config, config_path@, n),
        ),
{
    type_check(config, config_path, TypeCheck::HeaderNoneHasNoRequiredFields)
}

/// What `type.dir-matches-nothing` reports about the type `name`: only a
/// type that matched no record, and only when its directory is absent -- an
/// existing, empty directory is a type declared and not yet used.
pub open spec fn dir_findings(
    config: Config,
    path: Seq<char>,
    matched: Seq<(String, usize)>,
    existing: Seq<Seq<char>>,
    name: Seq<char>,
) -> Seq<FindingView> {
    let count: int = match lookup(matched, name) {
        Some(n) => n as int,
        None => 0,
    };
    match lookup(config.record_types@, name) {
        Some(t) => if count == 0 && !existing.contains(t.dir@) {
            seq![
                finding_of(
                    RULE_TYPE_DIR_MATCHES_NOTHING@,
                    FindingSeverity::Warning,
                    path,
                    None,
                    "record type '"@ + name + "' declares dir '"@ + t.dir@
                        + "', which does not exist -- every rule for this type examines nothing"@,
                ),
            ]
        } else {
            Seq::empty()
        },
        None => Seq::empty(),
    }
}

fn matched_count(matched: &Vec<(String, usize)>, name: &str) -> (r: usize)
    ensures
        r == match lookup(matched@, name@) {
            Some(n) => n,
            None => 0,
        },
{
    let mut i: usize = 0;
    while i < matched.len()
        invariant
            i <= matched.len(),
            forall|k: int| 0 <= k < i ==> matched@[k].0@ != name@,
        decreases matched.len() - i,
    {
        if crate::text::str_eq(matched[i].0.as_str(), name) {
            proof {
                crate::config::lemma_first_key(matched@, name@);
            }
            return matched[i].1;
        }
        i += 1;
    }
    proof {
        crate::config::lemma_first_key(matched@, name@);
    }
    0
}

/// A declared record type whose `dir` matches no record and does not exist:
/// every rule for that type examines nothing, and with any other type
/// working the run would still report success. `matched` is how many records
/// discovery found per type name; `existing_dirs` the declared directories
/// that exist. Both come from the caller, which is where the filesystem is.
pub fn type_dir_matches_nothing(
    config: &Config,
    config_path: &str,
    matched: &Vec<(String, usize)>,
    existing_dirs: &Vec<String>,
) -> (r: (RuleExecution, Vec<Finding>))
    ensures
        ran_on_config(
            r.0,
            RULE_TYPE_DIR_MATCHES_NOTHING@,
            PopulationUnit::RecordType,
            outcomes_by(type_names(*config), |n: Seq<char>| Outcome::Examined),
        ),
        finding_views(r.1@) == findings_by(
            type_names(*config),
            |n: Seq<char>| dir_findings(*config, config_path@, matched@, string_views(existing_dirs@), n),
        ),
{
    let names = sorted_type_names(config);
    let ghost ns = string_views(names@);
    let mut outcomes: Vec<Outcome> = Vec::new();
    let mut findings: Vec<Finding> = Vec::new();
    let mut k: usize = 0;
    while k < names.len()
        invariant
            k <= names.len(),
            ns == string_views(names@),
            ns == type_names(*config),
            outcomes@ == outcomes_by(ns.take(k as int), |n: Seq<char>| Outcome::Examined),
            finding_views(findings@) == findings_by(
                ns.take(k as int),
                |n: Seq<char>| dir_findings(*config, config_path@, matched@, string_views(existing_dirs@), n),
            ),
        decreases names.len() - k,
    {
        assert(ns.take(k + 1).drop_last() =~= ns.take(k as int));
        assert(ns.take(k + 1).last() == names@[k as int]@);
        let name = names[k].as_str();
        if matched_count(matched, name) == 0 {
            match config.type_config(name) {
                Some(t) => {
                    if !contains_string(existing_dirs, t.dir.as_str()) {
                        let mut m = type_message(name, "' declares dir '");
                        append(&mut m, t.dir.as_str());
                        append(&mut m, "', which does not exist -- every rule for this type examines nothing");
                        let ghost before = finding_views(findings@);
                        findings.push(new_finding(RULE_TYPE_DIR_MATCHES_NOTHING, FindingSeverity::Warning, config_path, None, m));
                        assert(finding_views(findings@) =~= before + seq![findings@.last()@]);
                    }
                },
                None => {},
            }
        }
        outcomes.push(Outcome::Examined);
        k += 1;
    }
    assert(ns.take(names.len() as int) =~= ns);
    (finish_config(RULE_TYPE_DIR_MATCHES_NOTHING, PopulationUnit::RecordType, &outcomes), findings)
}

// ---------------------------------------------------------------------------
// Field-slot rules: one candidate per (record, declared field) pair
// ---------------------------------------------------------------------------

/// Which of a type's declared fields make up a rule's slots.
#[derive(Debug, Clone, Copy, PartialEq, Eq, Structural)]
pub enum FieldSlots {
    /// `required_fields`.
    Required,
    /// `required_fields` ∪ `known_fields`, each once.
    Declared,
    /// `pointer_fields`, then `narrative_fields`.
    PointerAndNarrative,
    /// `pointer_fields`: the fields held to the clean-reference format.
    Pointer,
    /// `narrative_fields`: the fields checked for a stale target.
    Narrative,
}

pub open spec fn type_fields(t: RecordTypeConfig, sel: FieldSlots) -> Seq<Seq<char>> {
    match sel {
        FieldSlots::Required => string_views(t.required_fields@),
        FieldSlots::Declared => t.declared_spec(),
        FieldSlots::PointerAndNarrative => list_or_empty(t.pointer_fields) + list_or_empty(
            t.narrative_fields,
        ),
        FieldSlots::Pointer => list_or_empty(t.pointer_fields),
        FieldSlots::Narrative => list_or_empty(t.narrative_fields),
    }
}

/// The fields `sel` picks from the record's type; none for a type the
/// configuration does not declare.
pub open spec fn record_fields(config: Config, r: Record, sel: FieldSlots) -> Seq<Seq<char>> {
    match lookup(config.record_types@, r.record_type@) {
        Some(t) => type_fields(t, sel),
        None => Seq::empty(),
    }
}

/// Every `(record position, field)` slot, records in order and each
/// record's fields in declaration order.
pub open spec fn slots_of(config: Config, recs: Seq<Record>, sel: FieldSlots) -> Seq<(int, Seq<char>)>
    decreases recs.len(),
{
    if recs.len() == 0 {
        Seq::empty()
    } else {
        let i = recs.len() - 1;
        slots_of(config, recs.drop_last(), sel) + record_fields(config, recs.last(), sel).map_values(
            |f: Seq<char>| (i, f),
        )
    }
}

pub open spec fn slot_views(s: Seq<(usize, String)>) -> Seq<(int, Seq<char>)> {
    s.map_values(|p: (usize, String)| (p.0 as int, p.1@))
}

fn selected_fields(t: &RecordTypeConfig, sel: FieldSlots) -> (r: Vec<String>)
    ensures
        string_views(r@) == type_fields(*t, sel),
{
    let mut r: Vec<String> = Vec::new();
    match sel {
        FieldSlots::Required => {
            extend_strings(&mut r, &t.required_fields);
            assert(string_views(r@) =~= type_fields(*t, sel));
        },
        FieldSlots::Declared => {
            r = t.declared_fields();
        },
        FieldSlots::PointerAndNarrative | FieldSlots::Pointer | FieldSlots::Narrative => {
            if sel != FieldSlots::Narrative {
                match &t.pointer_fields {
                    Some(p) => extend_strings(&mut r, p),
                    None => {},
                }
            }
            let ghost first = string_views(r@);
            if sel != FieldSlots::Pointer {
                match &t.narrative_fields {
                    Some(n) => extend_strings(&mut r, n),
                    None => {},
                }
            }
            assert(string_views(r@) =~= type_fields(*t, sel));
        },
    }
    r
}

/// The slots `sel` picks, as `(record position, field)`.
pub fn field_slots(records: &[Record], config: &Config, sel: FieldSlots) -> (r: Vec<(usize, String)>)
    ensures
        slot_views(r@) == slots_of(*config, records@, sel),
        forall|k: int| 0 <= k < r@.len() ==> (#[trigger] r@[k]).0 < records@.len(),
{
    let mut r: Vec<(usize, String)> = Vec::new();
    let mut i: usize = 0;
    while i < records.len()
        invariant
            i <= records.len(),
            slot_views(r@) == slots_of(*config, records@.take(i as int), sel),
            forall|k: int| 0 <= k < r@.len() ==> (#[trigger] r@[k]).0 < i,
        decreases records.len() - i,
    {
        let fields = match config.type_config(records[i].record_type.as_str()) {
            Some(t) => selected_fields(t, sel),
            None => Vec::new(),
        };
        let ghost fv = string_views(fields@);
        assert(fv == record_fields(*config, records@[i as int], sel));
        let ghost start = slot_views(r@);
        let mut j: usize = 0;
        while j < fields.len()
            invariant
                i < records.len(),
                j <= fields.len(),
                fv == string_views(fields@),
                slot_views(r@) == start + fv.take(j as int).map_values(|f: Seq<char>| (i as int, f)),
                forall|k: int| 0 <= k < r@.len() ==> (#[trigger] r@[k]).0 < i + 1,
            decreases fields.len() - j,
        {
            let ghost before = slot_views(r@);
            r.push((i, fields[j].clone()));
            assert(slot_views(r@) =~= before.push((i as int, fv[j as int])));
            assert(fv.take(j + 1).map_values(|f: Seq<char>| (i as int, f)) =~= fv.take(j as int).map_values(
                |f: Seq<char>| (i as int, f),
            ).push((i as int, fv[j as int])));
            j += 1;
        }
        assert(fv.take(fields.len() as int) =~= fv);
        assert(records@.take(i + 1).drop_last() =~= records@.take(i as int));
        assert(records@.take(i + 1).last() == records@[i as int]);
        i += 1;
    }
    assert(records@.take(records.len() as int) =~= records@);
    r
}

/// The record-only checks judged one slot at a time.
#[derive(Debug, Clone, Copy, PartialEq, Eq, Structural)]
pub enum SlotCheck {
    Required,
    Quality,
    Pending,
    Untrimmed,
    CaseMismatch,
}

/// `{:?}` of a field state.
pub open spec fn state_name(s: FieldState) -> Seq<char> {
    match s {
        FieldState::Blank => "Blank"@,
        FieldState::Placeholder => "Placeholder"@,
        FieldState::Pending => "Pending"@,
        FieldState::Present => "Present"@,
    }
}

/// The header field the case-mismatch rule reports: among those equal to
/// `field` ignoring ASCII case but not exactly, the one whose key sorts
/// first, the earliest of equal keys.
pub open spec fn case_variant(fs: Seq<FieldV>, field: Seq<char>) -> Option<FieldV>
    decreases fs.len(),
{
    if fs.len() == 0 {
        None
    } else {
        let best = case_variant(fs.drop_last(), field);
        let f = fs.last();
        if eq_ignore_case(f.0, field) && f.0 != field {
            match best {
                Some(b) => if lex_le(b.0, f.0) {
                    Some(b)
                } else {
                    Some(f)
                },
                None => Some(f),
            }
        } else {
            best
        }
    }
}

pub open spec fn slot_finding(check: SlotCheck, r: Record, line: Option<usize>, message: Seq<char>) -> Seq<
    FindingView,
> {
    seq![finding_of(slot_rule(check), slot_severity(check), r.path@, line, message)]
}

pub open spec fn slot_rule(check: SlotCheck) -> Seq<char> {
    match check {
        SlotCheck::Required => RULE_HEADER_REQUIRED_FIELDS@,
        SlotCheck::Quality => RULE_FIELD_QUALITY@,
        SlotCheck::Pending => RULE_FIELD_PENDING@,
        SlotCheck::Untrimmed => RULE_FIELD_UNTRIMMED_VALUE@,
        SlotCheck::CaseMismatch => RULE_HEADER_FIELD_CASE_MISMATCH@,
    }
}

pub open spec fn slot_severity(check: SlotCheck) -> FindingSeverity {
    match check {
        SlotCheck::Required | SlotCheck::Quality | SlotCheck::CaseMismatch => FindingSeverity::Error,
        SlotCheck::Pending | SlotCheck::Untrimmed => FindingSeverity::Warning,
    }
}

/// What `check` decides about the slot `field` of record `r`, and what it
/// reports.
pub open spec fn slot_verdict(check: SlotCheck, r: Record, field: Seq<char>) -> (Outcome, Seq<FindingView>) {
    let h = r.header;
    let value = get_spec(h.fields_v(), field);
    match check {
        SlotCheck::Required => if h.region is None {
            (Outcome::Unreadable, Seq::empty())
        } else if value is None {
            (
                Outcome::Examined,
                slot_finding(
                    check,
                    r,
                    None,
                    "missing required header field '"@ + field + "' for record type '"@ + r.record_type@
                        + "'"@,
                ),
            )
        } else {
            (Outcome::Examined, Seq::empty())
        },
        SlotCheck::Quality => if h.unreadable_spec() {
            (Outcome::Unreadable, Seq::empty())
        } else {
            let state = field_state(value);
            if state == FieldState::Blank || state == FieldState::Placeholder {
                (
                    Outcome::Examined,
                    slot_finding(
                        check,
                        r,
                        None,
                        "field '"@ + field + "' is "@ + state_name(state) + " -- not a real, present value"@,
                    ),
                )
            } else if is_retired_placeholder(value) {
                (
                    Outcome::Examined,
                    slot_finding(
                        check,
                        r,
                        None,
                        "field '"@ + field + "' holds the retired placeholder "@ + debug_text(trim(value.unwrap()))
                            + " -- not a real, present value"@,
                    ),
                )
            } else {
                (Outcome::Examined, Seq::empty())
            }
        },
        SlotCheck::Pending => if h.unreadable_spec() {
            (Outcome::Unreadable, Seq::empty())
        } else if field_state(value) == FieldState::Pending {
            (
                Outcome::Examined,
                slot_finding(
                    check,
                    r,
                    None,
                    "field '"@ + field + "' is marked pending -- work declared unfinished"@,
                ),
            )
        } else {
            (Outcome::Examined, Seq::empty())
        },
        SlotCheck::Untrimmed => if h.region is None {
            (Outcome::Unreadable, Seq::empty())
        } else {
            match value {
                None => (Outcome::Absent, Seq::empty()),
                Some(v) => if v != trim(v) {
                    (
                        Outcome::Examined,
                        slot_finding(
                            check,
                            r,
                            None,
                            "field '"@ + field + "' is "@ + debug_text(v)
                                + " -- the surrounding whitespace is part of the value, so any exact comparison against '"@
                                + trim(v) + "' fails"@,
                        ),
                    )
                } else {
                    (Outcome::Examined, Seq::empty())
                },
            }
        },
        SlotCheck::CaseMismatch => if h.region is None {
            (Outcome::Unreadable, Seq::empty())
        } else if value is Some {
            (Outcome::Examined, Seq::empty())
        } else {
            match case_variant(h.fields_v(), field) {
                None => (Outcome::Absent, Seq::empty()),
                Some(found) => (
                    Outcome::Examined,
                    slot_finding(
                        check,
                        r,
                        Some(found.2 as usize),
                        "declared field '"@ + field + "' found as '"@ + found.0
                            + "' -- field names compare exactly (ADR-57); rename it"@,
                    ),
                ),
            }
        },
    }
}

fn slot_finding_exec(check: SlotCheck, r: &Record, line: Option<usize>, message: String) -> (f: Vec<Finding>)
    ensures
        finding_views(f@) == slot_finding(check, *r, line, message@),
{
    let (rule, severity) = match check {
        SlotCheck::Required => (RULE_HEADER_REQUIRED_FIELDS, FindingSeverity::Error),
        SlotCheck::Quality => (RULE_FIELD_QUALITY, FindingSeverity::Error),
        SlotCheck::Pending => (RULE_FIELD_PENDING, FindingSeverity::Warning),
        SlotCheck::Untrimmed => (RULE_FIELD_UNTRIMMED_VALUE, FindingSeverity::Warning),
        SlotCheck::CaseMismatch => (RULE_HEADER_FIELD_CASE_MISMATCH, FindingSeverity::Error),
    };
    one(new_finding(rule, severity, r.path.as_str(), line, message))
}

fn find_case_variant(h: &Header, field: &str) -> (r: Option<usize>)
    ensures
        match r {
            Some(i) => i < h.fields@.len() && case_variant(h.fields_v(), field@) == Some(h.fields_v()[i as int]),
            None => case_variant(h.fields_v(), field@) is None,
        },
{
    let target = chars_of(field);
    let ghost fs = h.fields_v();
    let mut best: Option<usize> = None;
    let mut i: usize = 0;
    while i < h.fields.len()
        invariant
            i <= h.fields.len(),
            fs == h.fields_v(),
            target@ == field@,
            match best {
                Some(b) => b < i && case_variant(fs.take(i as int), field@) == Some(fs[b as int]),
                None => case_variant(fs.take(i as int), field@) is None,
            },
        decreases h.fields.len() - i,
    {
        assert(fs.take(i + 1).drop_last() =~= fs.take(i as int));
        assert(fs.take(i + 1).last() == fs[i as int]);
        assert(fs[i as int] == h.fields@[i as int]@);
        let key = chars_of(h.fields[i].key.as_str());
        if seq_eq_ignore_case(&key, &target) && !seq_eq(&key, &target) {
            match best {
                Some(b) => {
                    let bk = chars_of(h.fields[b].key.as_str());
                    assert(fs[b as int] == h.fields@[b as int]@);
                    if !lex_le_exec(&bk, &key) {
                        best = Some(i);
                    }
                },
                None => {
                    best = Some(i);
                },
            }
        }
        i += 1;
    }
    assert(fs.take(h.fields.len() as int) =~= fs);
    best
}

fn judge_slot(check: SlotCheck, r: &Record, field: &str) -> (v: (Outcome, Vec<Finding>))
    ensures
        v.0 == slot_verdict(check, *r, field@).0,
        finding_views(v.1@) == slot_verdict(check, *r, field@).1,
{
    let h = &r.header;
    let value = h.get(field);
    match check {
        SlotCheck::Required => {
            if h.region.is_none() {
                return (Outcome::Unreadable, Vec::new());
            }
            if value.is_none() {
                let mut m = copy_str("missing required header field '");
                append(&mut m, field);
                append(&mut m, "' for record type '");
                append(&mut m, r.record_type.as_str());
                append(&mut m, "'");
                return (Outcome::Examined, slot_finding_exec(check, r, None, m));
            }
            (Outcome::Examined, Vec::new())
        },
        SlotCheck::Quality | SlotCheck::Pending => {
            if h.is_unreadable() {
                return (Outcome::Unreadable, Vec::new());
            }
            let state = classify(value);
            if check == SlotCheck::Quality {
                let name = match state {
                    FieldState::Blank => "Blank",
                    FieldState::Placeholder => "Placeholder",
                    FieldState::Pending => "Pending",
                    FieldState::Present => "Present",
                };
                if state == FieldState::Blank || state == FieldState::Placeholder {
                    let mut m = copy_str("field '");
                    append(&mut m, field);
                    append(&mut m, "' is ");
                    append(&mut m, name);
                    append(&mut m, " -- not a real, present value");
                    return (Outcome::Examined, slot_finding_exec(check, r, None, m));
                }
                if retired_placeholder(value) {
                    let mut m = copy_str("field '");
                    append(&mut m, field);
                    append(&mut m, "' holds the retired placeholder ");
                    let v = value.unwrap();
                    let cs = chars_of(v);
                    let t = trim_vec(&cs);
                    let ts = string_of(&t);
                    let d = debug_str(ts.as_str());
                    append(&mut m, d.as_str());
                    append(&mut m, " -- not a real, present value");
                    return (Outcome::Examined, slot_finding_exec(check, r, None, m));
                }
            } else if state == FieldState::Pending {
                let mut m = copy_str("field '");
                append(&mut m, field);
                append(&mut m, "' is marked pending -- work declared unfinished");
                return (Outcome::Examined, slot_finding_exec(check, r, None, m));
            }
            (Outcome::Examined, Vec::new())
        },
        SlotCheck::Untrimmed => {
            if h.region.is_none() {
                return (Outcome::Unreadable, Vec::new());
            }
            match value {
                None => (Outcome::Absent, Vec::new()),
                Some(v) => {
                    let cs = chars_of(v);
                    let t = trim_vec(&cs);
                    if !seq_eq(&cs, &t) {
                        let mut m = copy_str("field '");
                        append(&mut m, field);
                        append(&mut m, "' is ");
                        let d = debug_str(v);
                        append(&mut m, d.as_str());
                        append(
                            &mut m,
                            " -- the surrounding whitespace is part of the value, so any exact comparison against '",
                        );
                        let ts = crate::text::string_of(&t);
                        append(&mut m, ts.as_str());
                        append(&mut m, "' fails");
                        return (Outcome::Examined, slot_finding_exec(check, r, None, m));
                    }
                    (Outcome::Examined, Vec::new())
                },
            }
        },
        SlotCheck::CaseMismatch => {
            if h.region.is_none() {
                return (Outcome::Unreadable, Vec::new());
            }
            if value.is_some() {
                return (Outcome::Examined, Vec::new());
            }
            match find_case_variant(h, field) {
                None => (Outcome::Absent, Vec::new()),
                Some(i) => {
                    assert(h.fields_v()[i as int] == h.fields@[i as int]@);
                    let mut m = copy_str("declared field '");
                    append(&mut m, field);
                    append(&mut m, "' found as '");
                    append(&mut m, h.fields[i].key.as_str());
                    append(&mut m, "' -- field names compare exactly (ADR-57); rename it");
                    (Outcome::Examined, slot_finding_exec(check, r, Some(h.fields[i].line), m))
                },
            }
        },
    }
}

/// Judges every slot `sel` picks with `check`: the outcomes, the record
/// each slot belongs to, and the findings, in slot order.
pub fn judge_slots(records: &[Record], config: &Config, sel: FieldSlots, check: SlotCheck) -> (r: (
    Vec<Outcome>,
    Vec<String>,
    Vec<Finding>,
))
    ensures
        r.0@ == outcomes_by(
            slots_of(*config, records@, sel),
            |s: (int, Seq<char>)| slot_verdict(check, records@[s.0], s.1).0,
        ),
        string_views(r.1@) == paths_by(
            slots_of(*config, records@, sel),
            |s: (int, Seq<char>)| records@[s.0].path@,
        ),
        finding_views(r.2@) == findings_by(
            slots_of(*config, records@, sel),
            |s: (int, Seq<char>)| slot_verdict(check, records@[s.0], s.1).1,
        ),
{
    let slots = field_slots(records, config, sel);
    let ghost sv = slot_views(slots@);
    let mut outcomes: Vec<Outcome> = Vec::new();
    let mut paths: Vec<String> = Vec::new();
    let mut findings: Vec<Finding> = Vec::new();
    let mut k: usize = 0;
    while k < slots.len()
        invariant
            k <= slots.len(),
            sv == slot_views(slots@),
            sv == slots_of(*config, records@, sel),
            forall|m: int| 0 <= m < slots@.len() ==> (#[trigger] slots@[m]).0 < records@.len(),
            outcomes@ == outcomes_by(
                sv.take(k as int),
                |s: (int, Seq<char>)| slot_verdict(check, records@[s.0], s.1).0,
            ),
            string_views(paths@) == paths_by(sv.take(k as int), |s: (int, Seq<char>)| records@[s.0].path@),
            finding_views(findings@) == findings_by(
                sv.take(k as int),
                |s: (int, Seq<char>)| slot_verdict(check, records@[s.0], s.1).1,
            ),
        decreases slots.len() - k,
    {
        assert(sv.take(k + 1).drop_last() =~= sv.take(k as int));
        assert(sv.take(k + 1).last() == sv[k as int]);
        let i = slots[k].0;
        assert(sv[k as int] == (i as int, slots@[k as int].1@));
        let (o, mut fs) = judge_slot(check, &records[i], slots[k].1.as_str());
        outcomes.push(o);
        let ghost before_paths = string_views(paths@);
        paths.push(records[i].path.clone());
        assert(string_views(paths@) =~= before_paths.push(records@[i as int].path@));
        let ghost before = finding_views(findings@);
        let ghost add = finding_views(fs@);
        findings.append(&mut fs);
        assert(finding_views(findings@) =~= before + add);
        k += 1;
    }
    assert(sv.take(slots.len() as int) =~= sv);
    (outcomes, paths, findings)
}

/// " -- YAML parse error: {e}" when the header failed to parse as YAML.
pub open spec fn parse_detail(e: Option<String>) -> Seq<char> {
    match e {
        Some(m) => " -- YAML parse error: "@ + m@,
        None => Seq::empty(),
    }
}

/// One finding per duplicated header key.
pub open spec fn duplicate_findings(path: Seq<char>, dups: Seq<Seq<char>>) -> Seq<FindingView>
    decreases dups.len(),
{
    if dups.len() == 0 {
        Seq::empty()
    } else {
        duplicate_findings(path, dups.drop_last()) + seq![
            finding_of(
                RULE_HEADER_REQUIRED_FIELDS@,
                FindingSeverity::Error,
                path,
                None,
                "header key '"@ + dups.last() + "' appears more than once -- ambiguous which value is operative"@,
            ),
        ]
    }
}

/// The record-scoped findings of `header.required-fields`: a header that
/// could not be found or parsed, or a key written twice. Emitted once per
/// record, not per slot. A type declaring no header has nowhere for one to
/// be, so a missing region there is the declared truth, not a defect.
pub open spec fn required_record_findings(config: Config, r: Record) -> Seq<FindingView> {
    match lookup(config.record_types@, r.record_type@) {
        None => Seq::empty(),
        Some(t) => if t.header_shape == HeaderShape::Headerless {
            Seq::empty()
        } else if r.header.region is None {
            seq![
                finding_of(
                    RULE_HEADER_REQUIRED_FIELDS@,
                    FindingSeverity::Error,
                    r.path@,
                    None,
                    "no header-shaped region found -- required fields "@ + debug_list(
                        string_views(t.required_fields@),
                    ) + " cannot be checked"@ + parse_detail(r.header.parse_error),
                ),
            ]
        } else {
            duplicate_findings(r.path@, duplicates(r.header.fields_v()))
        },
    }
}

fn required_record_check(config: &Config, r: &Record) -> (v: Vec<Finding>)
    ensures
        finding_views(v@) == required_record_findings(*config, *r),
{
    let t = match config.type_config(r.record_type.as_str()) {
        Some(t) => t,
        None => return Vec::new(),
    };
    if t.header_shape == HeaderShape::Headerless {
        return Vec::new();
    }
    if r.header.region.is_none() {
        let mut m = copy_str("no header-shaped region found -- required fields ");
        let d = debug_strings(&t.required_fields);
        append(&mut m, d.as_str());
        append(&mut m, " cannot be checked");
        let ghost head = m@;
        match &r.header.parse_error {
            Some(e) => {
                append(&mut m, " -- YAML parse error: ");
                append(&mut m, e.as_str());
                assert(m@ =~= head + parse_detail(r.header.parse_error));
            },
            None => {
                assert(m@ =~= head + parse_detail(r.header.parse_error));
            },
        }
        return one(new_finding(RULE_HEADER_REQUIRED_FIELDS, FindingSeverity::Error, r.path.as_str(), None, m));
    }
    let dups = r.header.duplicate_keys();
    let ghost dv = dups@.map_values(|s: String| s@);
    let mut out: Vec<Finding> = Vec::new();
    let mut j: usize = 0;
    while j < dups.len()
        invariant
            j <= dups.len(),
            dv == dups@.map_values(|s: String| s@),
            finding_views(out@) == duplicate_findings(r.path@, dv.take(j as int)),
        decreases dups.len() - j,
    {
        assert(dv.take(j + 1).drop_last() =~= dv.take(j as int));
        assert(dv.take(j + 1).last() == dups@[j as int]@);
        let mut m = copy_str("header key '");
        append(&mut m, dups[j].as_str());
        append(&mut m, "' appears more than once -- ambiguous which value is operative");
        let ghost before = finding_views(out@);
        out.push(new_finding(RULE_HEADER_REQUIRED_FIELDS, FindingSeverity::Error, r.path.as_str(), None, m));
        assert(finding_views(out@) =~= before + seq![out@.last()@]);
        j += 1;
    }
    assert(dv.take(dups.len() as int) =~= dv);
    out
}

/// Header format consistency within a record type, against the type's
/// declared `required_fields`: every declared slot is read, and a missing
/// field is reported. A header that could not be found or parsed, and a key
/// written twice, are reported once per record; the slots behind an unparsed
/// header are unreadable, not missing.
pub fn header_required_fields(records: &[Record], config: &Config) -> (r: (RuleExecution, Vec<Finding>))
    ensures
        ran_as(
            r.0,
            RULE_HEADER_REQUIRED_FIELDS@,
            PopulationUnit::Field,
            outcomes_by(
                slots_of(*config, records@, FieldSlots::Required),
                |s: (int, Seq<char>)| slot_verdict(SlotCheck::Required, records@[s.0], s.1).0,
            ),
            paths_by(slots_of(*config, records@, FieldSlots::Required), |s: (int, Seq<char>)| records@[s.0].path@),
        ),
        finding_views(r.1@) == findings_by(records@, |rec: Record| required_record_findings(*config, rec))
            + findings_by(
            slots_of(*config, records@, FieldSlots::Required),
            |s: (int, Seq<char>)| slot_verdict(SlotCheck::Required, records@[s.0], s.1).1,
        ),
{
    let mut findings: Vec<Finding> = Vec::new();
    let mut i: usize = 0;
    while i < records.len()
        invariant
            i <= records.len(),
            finding_views(findings@) == findings_by(
                records@.take(i as int),
                |rec: Record| required_record_findings(*config, rec),
            ),
        decreases records.len() - i,
    {
        assert(records@.take(i + 1).drop_last() =~= records@.take(i as int));
        assert(records@.take(i + 1).last() == records@[i as int]);
        let mut fs = required_record_check(config, &records[i]);
        let ghost before = finding_views(findings@);
        let ghost add = finding_views(fs@);
        findings.append(&mut fs);
        assert(finding_views(findings@) =~= before + add);
        i += 1;
    }
    assert(records@.take(records.len() as int) =~= records@);
    let (outcomes, paths, mut slot_findings) = judge_slots(records, config, FieldSlots::Required, SlotCheck::Required);
    proof {
        lemma_by_len(
            slots_of(*config, records@, FieldSlots::Required),
            |s: (int, Seq<char>)| slot_verdict(SlotCheck::Required, records@[s.0], s.1).0,
            |s: (int, Seq<char>)| records@[s.0].path@,
        );
    }
    let ghost before = finding_views(findings@);
    let ghost add = finding_views(slot_findings@);
    findings.append(&mut slot_findings);
    assert(finding_views(findings@) =~= before + add);
    (finish_records(RULE_HEADER_REQUIRED_FIELDS, PopulationUnit::Field, &outcomes, &paths), findings)
}

/// A required field's quality, not just its presence: a value that is blank
/// or unedited template text is reported. A `Pending` value is
/// `field.pending`'s subject. The slots behind a header that did not parse
/// are unreadable, not blank.
pub fn field_quality(records: &[Record], config: &Config) -> (r: (RuleExecution, Vec<Finding>))
    ensures
        ran_as(
            r.0,
            RULE_FIELD_QUALITY@,
            PopulationUnit::Field,
            outcomes_by(
                slots_of(*config, records@, FieldSlots::Required),
                |s: (int, Seq<char>)| slot_verdict(SlotCheck::Quality, records@[s.0], s.1).0,
            ),
            paths_by(slots_of(*config, records@, FieldSlots::Required), |s: (int, Seq<char>)| records@[s.0].path@),
        ),
        finding_views(r.1@) == findings_by(
            slots_of(*config, records@, FieldSlots::Required),
            |s: (int, Seq<char>)| slot_verdict(SlotCheck::Quality, records@[s.0], s.1).1,
        ),
{
    let (outcomes, paths, findings) = judge_slots(records, config, FieldSlots::Required, SlotCheck::Quality);
    proof {
        lemma_by_len(
            slots_of(*config, records@, FieldSlots::Required),
            |s: (int, Seq<char>)| slot_verdict(SlotCheck::Quality, records@[s.0], s.1).0,
            |s: (int, Seq<char>)| records@[s.0].path@,
        );
    }
    (finish_records(RULE_FIELD_QUALITY, PopulationUnit::Field, &outcomes, &paths), findings)
}

/// A required field explicitly marked pending: someone declared the work
/// unfinished, which a blank field does not say.
pub fn field_pending(records: &[Record], config: &Config) -> (r: (RuleExecution, Vec<Finding>))
    ensures
        ran_as(
            r.0,
            RULE_FIELD_PENDING@,
            PopulationUnit::Field,
            outcomes_by(
                slots_of(*config, records@, FieldSlots::Required),
                |s: (int, Seq<char>)| slot_verdict(SlotCheck::Pending, records@[s.0], s.1).0,
            ),
            paths_by(slots_of(*config, records@, FieldSlots::Required), |s: (int, Seq<char>)| records@[s.0].path@),
        ),
        finding_views(r.1@) == findings_by(
            slots_of(*config, records@, FieldSlots::Required),
            |s: (int, Seq<char>)| slot_verdict(SlotCheck::Pending, records@[s.0], s.1).1,
        ),
{
    let (outcomes, paths, findings) = judge_slots(records, config, FieldSlots::Required, SlotCheck::Pending);
    proof {
        lemma_by_len(
            slots_of(*config, records@, FieldSlots::Required),
            |s: (int, Seq<char>)| slot_verdict(SlotCheck::Pending, records@[s.0], s.1).0,
            |s: (int, Seq<char>)| records@[s.0].path@,
        );
    }
    (finish_records(RULE_FIELD_PENDING, PopulationUnit::Field, &outcomes, &paths), findings)
}

/// A declared field whose value carries leading or trailing whitespace:
/// every other rule compares values exactly, so this is reported rather than
/// trimmed away.
pub fn field_untrimmed_value(records: &[Record], config: &Config) -> (r: (RuleExecution, Vec<Finding>))
    ensures
        ran_as(
            r.0,
            RULE_FIELD_UNTRIMMED_VALUE@,
            PopulationUnit::Field,
            outcomes_by(
                slots_of(*config, records@, FieldSlots::Declared),
                |s: (int, Seq<char>)| slot_verdict(SlotCheck::Untrimmed, records@[s.0], s.1).0,
            ),
            paths_by(slots_of(*config, records@, FieldSlots::Declared), |s: (int, Seq<char>)| records@[s.0].path@),
        ),
        finding_views(r.1@) == findings_by(
            slots_of(*config, records@, FieldSlots::Declared),
            |s: (int, Seq<char>)| slot_verdict(SlotCheck::Untrimmed, records@[s.0], s.1).1,
        ),
{
    let (outcomes, paths, findings) = judge_slots(records, config, FieldSlots::Declared, SlotCheck::Untrimmed);
    proof {
        lemma_by_len(
            slots_of(*config, records@, FieldSlots::Declared),
            |s: (int, Seq<char>)| slot_verdict(SlotCheck::Untrimmed, records@[s.0], s.1).0,
            |s: (int, Seq<char>)| records@[s.0].path@,
        );
    }
    (finish_records(RULE_FIELD_UNTRIMMED_VALUE, PopulationUnit::Field, &outcomes, &paths), findings)
}

/// A declared field written under a different case than its declaration:
/// field names compare exactly, so everywhere else it reads as absent; this
/// is the one place that says which absences are really this.
pub fn header_field_case_mismatch(records: &[Record], config: &Config) -> (r: (RuleExecution, Vec<Finding>))
    ensures
        ran_as(
            r.0,
            RULE_HEADER_FIELD_CASE_MISMATCH@,
            PopulationUnit::Field,
            outcomes_by(
                slots_of(*config, records@, FieldSlots::Declared),
                |s: (int, Seq<char>)| slot_verdict(SlotCheck::CaseMismatch, records@[s.0], s.1).0,
            ),
            paths_by(slots_of(*config, records@, FieldSlots::Declared), |s: (int, Seq<char>)| records@[s.0].path@),
        ),
        finding_views(r.1@) == findings_by(
            slots_of(*config, records@, FieldSlots::Declared),
            |s: (int, Seq<char>)| slot_verdict(SlotCheck::CaseMismatch, records@[s.0], s.1).1,
        ),
{
    let (outcomes, paths, findings) = judge_slots(records, config, FieldSlots::Declared, SlotCheck::CaseMismatch);
    proof {
        lemma_by_len(
            slots_of(*config, records@, FieldSlots::Declared),
            |s: (int, Seq<char>)| slot_verdict(SlotCheck::CaseMismatch, records@[s.0], s.1).0,
            |s: (int, Seq<char>)| records@[s.0].path@,
        );
    }
    (finish_records(RULE_HEADER_FIELD_CASE_MISMATCH, PopulationUnit::Field, &outcomes, &paths), findings)
}

// ---------------------------------------------------------------------------
// Record rules: one candidate per record
// ---------------------------------------------------------------------------

/// Whether a written key is one of the declared names, compared exactly:
/// matching ignoring case would accept a name nobody declared.
pub fn field_is_declared(key: &str, allowed: &Vec<String>) -> (r: bool)
    ensures
        r == string_views(allowed@).contains(key@),
{
    contains_string(allowed, key)
}

/// The declared name a written key differs from only in case (Unicode
/// lowercase mapping): the one that sorts first, so the hint never changes
/// between runs on one corpus.
pub open spec fn near_miss_spec(key: Seq<char>, allowed: Seq<Seq<char>>) -> Option<Seq<char>>
    decreases allowed.len(),
{
    if allowed.len() == 0 {
        None
    } else {
        let best = near_miss_spec(key, allowed.drop_last());
        let d = allowed.last();
        if unicode_lower(d) == unicode_lower(key) {
            match best {
                Some(b) => if lex_le(b, d) {
                    Some(b)
                } else {
                    Some(d)
                },
                None => Some(d),
            }
        } else {
            best
        }
    }
}

/// `near_miss_spec` is the least matching name, in `lex_le` order, or none
/// when nothing matches.
pub proof fn lemma_near_miss_is_least(key: Seq<char>, allowed: Seq<Seq<char>>)
    ensures
        near_miss_spec(key, allowed) is None <==> forall|k: int|
            0 <= k < allowed.len() ==> unicode_lower(#[trigger] allowed[k]) != unicode_lower(key),
        near_miss_spec(key, allowed) matches Some(d) ==> allowed.contains(d) && unicode_lower(d) == unicode_lower(
            key,
        ) && forall|k: int|
            0 <= k < allowed.len() && unicode_lower(#[trigger] allowed[k]) == unicode_lower(key) ==> lex_le(
                d,
                allowed[k],
            ),
    decreases allowed.len(),
{
    if allowed.len() > 0 {
        let rest = allowed.drop_last();
        lemma_near_miss_is_least(key, rest);
        let d = allowed.last();
        assert forall|k: int| 0 <= k < rest.len() implies rest[k] == allowed[k] by {}
        assert(allowed[allowed.len() - 1] == d);
        match near_miss_spec(key, rest) {
            Some(b) => {
                let ib = choose|i: int| 0 <= i < rest.len() && rest[i] == b;
                assert(allowed[ib] == b);
                crate::waiver::lemma_lex_le_total_order(b, d, d);
                assert forall|k: int|
                    0 <= k < allowed.len() && unicode_lower(#[trigger] allowed[k]) == unicode_lower(key) implies lex_le(
                    near_miss_spec(key, allowed)->0,
                    allowed[k],
                ) by {
                    let m = near_miss_spec(key, allowed)->0;
                    crate::waiver::lemma_lex_le_total_order(m, b, allowed[k]);
                    crate::waiver::lemma_lex_le_total_order(m, d, allowed[k]);
                    crate::waiver::lemma_lex_le_total_order(b, d, allowed[k]);
                    crate::waiver::lemma_lex_le_total_order(d, b, allowed[k]);
                }
            },
            None => {
                crate::waiver::lemma_lex_le_total_order(d, d, d);
            },
        }
    }
}

/// The hint names the same declaration whatever order the declarations
/// are listed in: two lists holding the same names give the same hint.
pub proof fn lemma_near_miss_ignores_order(key: Seq<char>, a: Seq<Seq<char>>, b: Seq<Seq<char>>)
    requires
        forall|x: Seq<char>| a.contains(x) <==> b.contains(x),
    ensures
        near_miss_spec(key, a) == near_miss_spec(key, b),
{
    lemma_near_miss_is_least(key, a);
    lemma_near_miss_is_least(key, b);
    match (near_miss_spec(key, a), near_miss_spec(key, b)) {
        (Some(x), Some(y)) => {
            let ix = choose|i: int| 0 <= i < b.len() && b[i] == x;
            let iy = choose|i: int| 0 <= i < a.len() && a[i] == y;
            assert(b.contains(x));
            assert(a.contains(y));
            assert(lex_le(x, a[iy]));
            assert(lex_le(y, b[ix]));
            crate::waiver::lemma_lex_le_total_order(x, y, x);
        },
        (Some(x), None) => {
            assert(b.contains(x));
            let ix = choose|i: int| 0 <= i < b.len() && b[i] == x;
            assert(unicode_lower(b[ix]) != unicode_lower(key));
        },
        (None, Some(y)) => {
            assert(a.contains(y));
            let iy = choose|i: int| 0 <= i < a.len() && a[i] == y;
            assert(unicode_lower(a[iy]) != unicode_lower(key));
        },
        (None, None) => {},
    }
}

/// The declared name `key` matches only ignoring case, if there is one:
/// offered in a message as a likely intended spelling.
pub fn near_miss<'a>(key: &str, allowed: &'a Vec<String>) -> (r: Option<&'a String>)
    ensures
        match r {
            Some(d) => near_miss_spec(key@, string_views(allowed@)) == Some(d@),
            None => near_miss_spec(key@, string_views(allowed@)) is None,
        },
{
    let ghost av = string_views(allowed@);
    let lk = to_lowercase(key);
    let mut best: Option<usize> = None;
    let mut i: usize = 0;
    while i < allowed.len()
        invariant
            i <= allowed.len(),
            av == string_views(allowed@),
            lk@ == unicode_lower(key@),
            match best {
                Some(b) => b < i && near_miss_spec(key@, av.take(i as int)) == Some(av[b as int]),
                None => near_miss_spec(key@, av.take(i as int)) is None,
            },
        decreases allowed.len() - i,
    {
        assert(av.take(i + 1).drop_last() =~= av.take(i as int));
        assert(av.take(i + 1).last() == allowed@[i as int]@);
        let ld = to_lowercase(allowed[i].as_str());
        if str_eq(ld.as_str(), lk.as_str()) {
            match best {
                Some(b) => {
                    let bk = chars_of(allowed[b].as_str());
                    let dk = chars_of(allowed[i].as_str());
                    if !lex_le_exec(&bk, &dk) {
                        best = Some(i);
                    }
                },
                None => {
                    best = Some(i);
                },
            }
        }
        i += 1;
    }
    assert(av.take(allowed.len() as int) =~= av);
    match best {
        Some(b) => Some(&allowed[b]),
        None => None,
    }
}

/// The record-level checks.
#[derive(Debug, Clone, Copy, PartialEq, Eq, Structural)]
pub enum RecordCheck {
    LayoutConsistency,
    FieldSetConsistency,
}

/// Whether `r` is in `check`'s population: its type declares a layout, or
/// declares `known_fields`.
pub open spec fn eligible_record(check: RecordCheck, config: Config, r: Record) -> bool {
    match lookup(config.record_types@, r.record_type@) {
        Some(t) => match check {
            RecordCheck::LayoutConsistency => t.header_layout is Some,
            RecordCheck::FieldSetConsistency => t.known_fields is Some,
        },
        None => false,
    }
}

/// The records in `check`'s population, in order.
pub open spec fn eligible_records(check: RecordCheck, config: Config, recs: Seq<Record>) -> Seq<Record>
    decreases recs.len(),
{
    if recs.len() == 0 {
        Seq::empty()
    } else {
        eligible_records(check, config, recs.drop_last()) + if eligible_record(check, config, recs.last()) {
            seq![recs.last()]
        } else {
            Seq::empty()
        }
    }
}

pub open spec fn layout_name(l: HeaderLayout) -> Seq<char> {
    match l {
        HeaderLayout::OnePerLine => "one-per-line"@,
        HeaderLayout::PipeDelimited => "pipe-delimited"@,
    }
}

/// One finding per header field the type does not declare.
pub open spec fn undeclared_field_findings(r: Record, allowed: Seq<Seq<char>>, fs: Seq<FieldV>) -> Seq<
    FindingView,
>
    decreases fs.len(),
{
    if fs.len() == 0 {
        Seq::empty()
    } else {
        let f = fs.last();
        undeclared_field_findings(r, allowed, fs.drop_last()) + if allowed.contains(f.0) {
            Seq::empty()
        } else {
            seq![
                finding_of(
                    RULE_HEADER_FIELD_SET_CONSISTENCY@,
                    FindingSeverity::Warning,
                    r.path@,
                    Some(f.2 as usize),
                    match near_miss_spec(f.0, allowed) {
                        Some(d) => "field '"@ + f.0 + "' is not declared for record type '"@ + r.record_type@
                            + "' -- the type declares '"@ + d + "', which differs only in case"@,
                        None => "field '"@ + f.0
                            + "' is not declared (required_fields or known_fields) for record type '"@
                            + r.record_type@ + "'"@,
                    },
                ),
            ]
        }
    }
}

/// What `check` decides about the record `r`, and what it reports.
pub open spec fn record_verdict(check: RecordCheck, config: Config, r: Record) -> (Outcome, Seq<FindingView>) {
    match lookup(config.record_types@, r.record_type@) {
        None => (Outcome::Absent, Seq::empty()),
        Some(t) => match check {
            RecordCheck::LayoutConsistency => match (t.header_layout, r.header.layout) {
                (Some(declared), Some(actual)) => if actual != declared {
                    (
                        Outcome::Examined,
                        seq![
                            finding_of(
                                RULE_HEADER_LAYOUT_CONSISTENCY@,
                                FindingSeverity::Warning,
                                r.path@,
                                None,
                                "header layout '"@ + layout_name(actual) + "' disagrees with '"@
                                    + layout_name(declared) + "', declared for record type '"@
                                    + r.record_type@ + "'"@,
                            ),
                        ],
                    )
                } else {
                    (Outcome::Examined, Seq::empty())
                },
                _ => (Outcome::Absent, Seq::empty()),
            },
            RecordCheck::FieldSetConsistency => if t.known_fields is None {
                (Outcome::Absent, Seq::empty())
            } else if r.header.unreadable_spec() {
                (Outcome::Unreadable, Seq::empty())
            } else {
                (
                    Outcome::Examined,
                    undeclared_field_findings(r, t.declared_spec(), r.header.fields_v()),
                )
            },
        },
    }
}

fn layout_label(layout: HeaderLayout) -> (r: &'static str)
    ensures
        r@ == layout_name(layout),
{
    match layout {
        HeaderLayout::OnePerLine => "one-per-line",
        HeaderLayout::PipeDelimited => "pipe-delimited",
    }
}

fn judge_record(check: RecordCheck, config: &Config, r: &Record) -> (v: (Outcome, Vec<Finding>))
    ensures
        v.0 == record_verdict(check, *config, *r).0,
        finding_views(v.1@) == record_verdict(check, *config, *r).1,
{
    let t = match config.type_config(r.record_type.as_str()) {
        Some(t) => t,
        None => return (Outcome::Absent, Vec::new()),
    };
    match check {
        RecordCheck::LayoutConsistency => {
            let declared = match t.header_layout {
                Some(l) => l,
                None => return (Outcome::Absent, Vec::new()),
            };
            let actual = match r.header.layout() {
                Some(l) => l,
                None => return (Outcome::Absent, Vec::new()),
            };
            if actual != declared {
                let mut m = copy_str("header layout '");
                append(&mut m, layout_label(actual));
                append(&mut m, "' disagrees with '");
                append(&mut m, layout_label(declared));
                append(&mut m, "', declared for record type '");
                append(&mut m, r.record_type.as_str());
                append(&mut m, "'");
                return (
                    Outcome::Examined,
                    one(new_finding(RULE_HEADER_LAYOUT_CONSISTENCY, FindingSeverity::Warning, r.path.as_str(), None, m)),
                );
            }
            (Outcome::Examined, Vec::new())
        },
        RecordCheck::FieldSetConsistency => {
            if t.known_fields.is_none() {
                return (Outcome::Absent, Vec::new());
            }
            if r.header.is_unreadable() {
                return (Outcome::Unreadable, Vec::new());
            }
            let allowed = t.declared_fields();
            let ghost av = string_views(allowed@);
            let ghost fs = r.header.fields_v();
            let mut out: Vec<Finding> = Vec::new();
            let mut i: usize = 0;
            while i < r.header.fields.len()
                invariant
                    i <= r.header.fields.len(),
                    av == string_views(allowed@),
                    fs == r.header.fields_v(),
                    finding_views(out@) == undeclared_field_findings(*r, av, fs.take(i as int)),
                decreases r.header.fields.len() - i,
            {
                assert(fs.take(i + 1).drop_last() =~= fs.take(i as int));
                assert(fs.take(i + 1).last() == fs[i as int]);
                let f = &r.header.fields[i];
                assert(fs[i as int] == f@);
                if !field_is_declared(f.key.as_str(), &allowed) {
                    let mut m = copy_str("field '");
                    append(&mut m, f.key.as_str());
                    match near_miss(f.key.as_str(), &allowed) {
                        Some(d) => {
                            append(&mut m, "' is not declared for record type '");
                            append(&mut m, r.record_type.as_str());
                            append(&mut m, "' -- the type declares '");
                            append(&mut m, d.as_str());
                            append(&mut m, "', which differs only in case");
                        },
                        None => {
                            append(&mut m, "' is not declared (required_fields or known_fields) for record type '");
                            append(&mut m, r.record_type.as_str());
                            append(&mut m, "'");
                        },
                    }
                    let ghost before = finding_views(out@);
                    out.push(new_finding(
                        RULE_HEADER_FIELD_SET_CONSISTENCY,
                        FindingSeverity::Warning,
                        r.path.as_str(),
                        Some(f.line),
                        m,
                    ));
                    assert(finding_views(out@) =~= before + seq![out@.last()@]);
                }
                i += 1;
            }
            assert(fs.take(r.header.fields.len() as int) =~= fs);
            (Outcome::Examined, out)
        },
    }
}

fn is_eligible(check: RecordCheck, config: &Config, r: &Record) -> (b: bool)
    ensures
        b == eligible_record(check, *config, *r),
{
    match config.type_config(r.record_type.as_str()) {
        Some(t) => match check {
            RecordCheck::LayoutConsistency => t.header_layout.is_some(),
            RecordCheck::FieldSetConsistency => t.known_fields.is_some(),
        },
        None => false,
    }
}

/// Judges every record in `check`'s population.
pub fn judge_records(records: &[Record], config: &Config, check: RecordCheck) -> (r: (
    Vec<Outcome>,
    Vec<String>,
    Vec<Finding>,
))
    ensures
        r.0@ == outcomes_by(
            eligible_records(check, *config, records@),
            |rec: Record| record_verdict(check, *config, rec).0,
        ),
        string_views(r.1@) == paths_by(eligible_records(check, *config, records@), |rec: Record| rec.path@),
        finding_views(r.2@) == findings_by(
            eligible_records(check, *config, records@),
            |rec: Record| record_verdict(check, *config, rec).1,
        ),
        r.0@.len() == r.1@.len(),
{
    let mut outcomes: Vec<Outcome> = Vec::new();
    let mut paths: Vec<String> = Vec::new();
    let mut findings: Vec<Finding> = Vec::new();
    let mut i: usize = 0;
    while i < records.len()
        invariant
            i <= records.len(),
            outcomes@ == outcomes_by(
                eligible_records(check, *config, records@.take(i as int)),
                |rec: Record| record_verdict(check, *config, rec).0,
            ),
            string_views(paths@) == paths_by(
                eligible_records(check, *config, records@.take(i as int)),
                |rec: Record| rec.path@,
            ),
            finding_views(findings@) == findings_by(
                eligible_records(check, *config, records@.take(i as int)),
                |rec: Record| record_verdict(check, *config, rec).1,
            ),
            outcomes@.len() == paths@.len(),
        decreases records.len() - i,
    {
        let ghost pre = eligible_records(check, *config, records@.take(i as int));
        assert(records@.take(i + 1).drop_last() =~= records@.take(i as int));
        assert(records@.take(i + 1).last() == records@[i as int]);
        if is_eligible(check, config, &records[i]) {
            let ghost post = eligible_records(check, *config, records@.take(i + 1));
            assert(post =~= pre.push(records@[i as int]));
            assert(post.drop_last() =~= pre);
            let (o, mut fs) = judge_record(check, config, &records[i]);
            outcomes.push(o);
            let ghost before_paths = string_views(paths@);
            paths.push(records[i].path.clone());
            assert(string_views(paths@) =~= before_paths.push(records@[i as int].path@));
            let ghost before = finding_views(findings@);
            let ghost add = finding_views(fs@);
            findings.append(&mut fs);
            assert(finding_views(findings@) =~= before + add);
        } else {
            assert(eligible_records(check, *config, records@.take(i + 1)) =~= pre);
        }
        i += 1;
    }
    assert(records@.take(records.len() as int) =~= records@);
    (outcomes, paths, findings)
}

/// A record's header line layout matches its type's declared
/// `header_layout`. A type declaring none is outside the population; a
/// record whose header shows no layout is in it and not judged.
pub fn header_layout_consistency(records: &[Record], config: &Config) -> (r: (RuleExecution, Vec<Finding>))
    ensures
        ran_as(
            r.0,
            RULE_HEADER_LAYOUT_CONSISTENCY@,
            PopulationUnit::Record,
            outcomes_by(
                eligible_records(RecordCheck::LayoutConsistency, *config, records@),
                |rec: Record| record_verdict(RecordCheck::LayoutConsistency, *config, rec).0,
            ),
            paths_by(eligible_records(RecordCheck::LayoutConsistency, *config, records@), |rec: Record| rec.path@),
        ),
        finding_views(r.1@) == findings_by(
            eligible_records(RecordCheck::LayoutConsistency, *config, records@),
            |rec: Record| record_verdict(RecordCheck::LayoutConsistency, *config, rec).1,
        ),
{
    let (outcomes, paths, findings) = judge_records(records, config, RecordCheck::LayoutConsistency);
    (finish_records(RULE_HEADER_LAYOUT_CONSISTENCY, PopulationUnit::Record, &outcomes, &paths), findings)
}

/// Every header field on a record belongs to its type's declared fields
/// (`required_fields` or `known_fields`), compared exactly. A type declaring
/// no `known_fields` is outside the population; a record whose header did not
/// parse is in it and unreadable, never counted as clean.
pub fn header_field_set_consistency(records: &[Record], config: &Config) -> (r: (RuleExecution, Vec<Finding>))
    ensures
        ran_as(
            r.0,
            RULE_HEADER_FIELD_SET_CONSISTENCY@,
            PopulationUnit::Record,
            outcomes_by(
                eligible_records(RecordCheck::FieldSetConsistency, *config, records@),
                |rec: Record| record_verdict(RecordCheck::FieldSetConsistency, *config, rec).0,
            ),
            paths_by(eligible_records(RecordCheck::FieldSetConsistency, *config, records@), |rec: Record| rec.path@),
        ),
        finding_views(r.1@) == findings_by(
            eligible_records(RecordCheck::FieldSetConsistency, *config, records@),
            |rec: Record| record_verdict(RecordCheck::FieldSetConsistency, *config, rec).1,
        ),
{
    let (outcomes, paths, findings) = judge_records(records, config, RecordCheck::FieldSetConsistency);
    (finish_records(RULE_HEADER_FIELD_SET_CONSISTENCY, PopulationUnit::Record, &outcomes, &paths), findings)
}

// ---------------------------------------------------------------------------
// Reference rules: slots whose values name other records
// ---------------------------------------------------------------------------

/// The field name records of type `record_type` use for `role`: the type's
/// declared override, else the role's default (also for an undeclared type).
pub open spec fn relation_name(config: Config, record_type: Seq<char>, role: RelationRole) -> Seq<char> {
    match lookup(config.record_types@, record_type) {
        Some(t) => t.relation_field_spec(role),
        None => default_field(role),
    }
}

/// The field name `record_type` uses for `role`.
pub fn relation_field_name<'a>(config: &'a Config, record_type: &str, role: RelationRole) -> (r: &'a str)
    ensures
        r@ == relation_name(*config, record_type@, role),
{
    match config.type_config(record_type) {
        Some(t) => t.relation_field(role),
        None => role.default_field_name(),
    }
}

/// A field's value on another record, read only when that record's own type
/// declares the field and its header parsed: a type that never declares
/// `Status` is not a rule's business to judge.
pub open spec fn cross_value(config: Config, r: Record, key: Seq<char>) -> Option<Seq<char>> {
    match lookup(config.record_types@, r.record_type@) {
        Some(t) => if t.declares_spec(key) && !r.header.unreadable_spec() {
            get_spec(r.header.fields_v(), key)
        } else {
            None
        },
        None => None,
    }
}

fn declared_cross_record_value<'a>(config: &Config, r: &'a Record, key: &str) -> (v: Option<&'a str>)
    ensures
        match v {
            Some(s) => cross_value(*config, *r, key@) == Some(s@),
            None => cross_value(*config, *r, key@) is None,
        },
{
    let declared = match config.type_config(r.record_type.as_str()) {
        Some(t) => t.declares(key),
        None => false,
    };
    if !declared {
        return None;
    }
    match r.header.read_declared(key) {
        crate::header::FieldRead::Present(v) => Some(v),
        _ => None,
    }
}

/// The reference-reading checks.
#[derive(Debug, Clone, Copy, PartialEq, Eq, Structural)]
pub enum RefCheck {
    /// A reference resolves to a discovered record.
    Resolution,
    /// A resolved target is not in one of the listed statuses.
    TargetStatus,
    /// A narrative reference's target has not reached a listed terminal status.
    Stale,
    /// A resolved target's type declares the field its status is read from.
    TargetStatusUndeclared,
    /// Every comma-separated entry of a pointer field is exactly a reference.
    PointerClean,
}

/// What `check` reports about one reference `reference` written in the slot
/// `field` of record `r`; `targets` are the records references resolve
/// against and `statuses` the listed statuses.
pub open spec fn reference_findings(
    check: RefCheck,
    config: Config,
    targets: Seq<Record>,
    statuses: Seq<Seq<char>>,
    r: Record,
    field: Seq<char>,
    reference: Seq<char>,
) -> Seq<FindingView> {
    let target = resolve(targets, normalize(reference));
    match check {
        RefCheck::Resolution => if target is None {
            seq![
                finding_of(
                    RULE_POINTER_RESOLUTION@,
                    FindingSeverity::Error,
                    r.path@,
                    None,
                    field + ": "@ + reference + " does not resolve to any discovered record"@,
                ),
            ]
        } else {
            Seq::empty()
        },
        RefCheck::TargetStatus => match target {
            Some(t) => {
                let sf = relation_name(config, t.record_type@, RelationRole::Status);
                match cross_value(config, t, sf) {
                    Some(status) => if statuses.contains(status) {
                        seq![
                            finding_of(
                                RULE_POINTER_TARGET_STATUS@,
                                FindingSeverity::Warning,
                                r.path@,
                                None,
                                field + ": "@ + reference + " resolves, but its "@ + sf + " is "@ + status,
                            ),
                        ]
                    } else {
                        Seq::empty()
                    },
                    None => Seq::empty(),
                }
            },
            None => Seq::empty(),
        },
        RefCheck::Stale => match target {
            Some(t) => {
                let sf = relation_name(config, t.record_type@, RelationRole::Status);
                match cross_value(config, t, sf) {
                    Some(status) => if statuses.contains(status) {
                        seq![
                            finding_of(
                                RULE_NARRATIVE_FIELD_STALE@,
                                FindingSeverity::Warning,
                                r.path@,
                                None,
                                field + ": "@ + reference + " has reached a terminal status ("@ + status
                                    + ") -- re-examine whether this record's "@ + relation_name(
                                    config,
                                    r.record_type@,
                                    RelationRole::Status,
                                ) + "/"@ + field + " should update"@,
                            ),
                        ]
                    } else {
                        Seq::empty()
                    },
                    None => Seq::empty(),
                }
            },
            None => Seq::empty(),
        },
        RefCheck::TargetStatusUndeclared => match target {
            Some(t) => {
                let sf = relation_name(config, t.record_type@, RelationRole::Status);
                let declared = match lookup(config.record_types@, t.record_type@) {
                    Some(tc) => tc.declares_spec(sf),
                    None => false,
                };
                if !declared {
                    seq![
                        finding_of(
                            RULE_RELATION_TARGET_STATUS_UNDECLARED@,
                            FindingSeverity::Warning,
                            r.path@,
                            None,
                            field + ": "@ + reference + " resolves, but its type '"@ + t.record_type@
                                + "' does not declare "@ + sf + " -- its status can never be checked"@,
                        ),
                    ]
                } else {
                    Seq::empty()
                }
            },
            None => Seq::empty(),
        },
        RefCheck::PointerClean => Seq::empty(),
    }
}

/// The findings for each reference, in order.
pub open spec fn references_findings(
    check: RefCheck,
    config: Config,
    targets: Seq<Record>,
    statuses: Seq<Seq<char>>,
    r: Record,
    field: Seq<char>,
    refs: Seq<Seq<char>>,
) -> Seq<FindingView>
    decreases refs.len(),
{
    if refs.len() == 0 {
        Seq::empty()
    } else {
        references_findings(check, config, targets, statuses, r, field, refs.drop_last())
            + reference_findings(check, config, targets, statuses, r, field, refs.last())
    }
}

/// One finding per comma-separated entry of a pointer field that is not,
/// once trimmed, exactly a reference.
pub open spec fn clean_findings(r: Record, field: Seq<char>, entries: Seq<Seq<char>>) -> Seq<FindingView>
    decreases entries.len(),
{
    if entries.len() == 0 {
        Seq::empty()
    } else {
        let e = trim(entries.last());
        clean_findings(r, field, entries.drop_last()) + if is_reference(e) {
            Seq::empty()
        } else {
            seq![
                finding_of(
                    RULE_HEADER_POINTER_FIELD_CLEAN@,
                    FindingSeverity::Warning,
                    r.path@,
                    None,
                    field + " entry "@ + debug_text(e)
                        + " isn't a clean reference -- pointer fields should hold only comma-separated reference IDs (e.g. \"RFC-1\", not \"RFC-1 (Accepted)\"); pointer.resolution already reports a resolved target's live Status"@,
                ),
            ]
        }
    }
}

/// `—`, the written "no value".
pub open spec fn no_value() -> Seq<char> {
    seq!['\u{2014}']
}

/// What `check` decides about the slot `field` of record `r`, and reports.
pub open spec fn ref_verdict(
    check: RefCheck,
    config: Config,
    targets: Seq<Record>,
    statuses: Seq<Seq<char>>,
    r: Record,
    field: Seq<char>,
) -> (Outcome, Seq<FindingView>) {
    let value = get_spec(r.header.fields_v(), field);
    match check {
        RefCheck::PointerClean => match value {
            None => (Outcome::Absent, Seq::empty()),
            Some(v) => if trim(v) == no_value() {
                (Outcome::Examined, Seq::empty())
            } else {
                (Outcome::Examined, clean_findings(r, field, split_char(v, ',')))
            },
        },
        _ => if r.header.region is None {
            (Outcome::Unreadable, Seq::empty())
        } else {
            match value {
                None => (Outcome::Absent, Seq::empty()),
                Some(v) => {
                    let refs = references(v);
                    if refs.len() == 0 {
                        (Outcome::Absent, Seq::empty())
                    } else {
                        (
                            Outcome::Examined,
                            references_findings(check, config, targets, statuses, r, field, refs),
                        )
                    }
                },
            }
        },
    }
}

pub open spec fn ref_targets(index: Option<&RecordIndex>) -> Seq<Record> {
    match index {
        Some(i) => i.targets(),
        None => Seq::empty(),
    }
}

fn judge_reference(
    check: RefCheck,
    config: &Config,
    index: Option<&RecordIndex>,
    statuses: &[String],
    r: &Record,
    field: &str,
    reference: &str,
) -> (v: Vec<Finding>)
    ensures
        finding_views(v@) == reference_findings(
            check,
            *config,
            ref_targets(index),
            string_views(statuses@),
            *r,
            field@,
            reference@,
        ),
{
    let cs = chars_of(reference);
    let key = normalize_exec(&cs);
    let target = match index {
        Some(i) => i.get(&key),
        None => None,
    };
    proof {
        if index is None {
            assert(resolve(Seq::<Record>::empty(), normalize(reference@)) is None) by {
                crate::references::lemma_first_claimant(Seq::<Record>::empty(), normalize(reference@));
            }
        }
    }
    match check {
        RefCheck::Resolution => {
            if target.is_none() {
                let mut m = copy_str(field);
                append(&mut m, ": ");
                append(&mut m, reference);
                append(&mut m, " does not resolve to any discovered record");
                return one(new_finding(RULE_POINTER_RESOLUTION, FindingSeverity::Error, r.path.as_str(), None, m));
            }
            Vec::new()
        },
        RefCheck::TargetStatus | RefCheck::Stale => {
            let t = match target {
                Some(t) => t,
                None => return Vec::new(),
            };
            let sf = relation_field_name(config, t.record_type.as_str(), RelationRole::Status);
            let status = match declared_cross_record_value(config, t, sf) {
                Some(s) => s,
                None => return Vec::new(),
            };
            let listed = {
                let mut found = false;
                let mut k: usize = 0;
                while k < statuses.len()
                    invariant
                        k <= statuses.len(),
                        found == string_views(statuses@).take(k as int).contains(status@),
                    decreases statuses.len() - k,
                {
                    assert(string_views(statuses@).take(k + 1) =~= string_views(statuses@).take(k as int).push(
                        statuses@[k as int]@,
                    ));
                    if str_eq(statuses[k].as_str(), status) {
                        assert(string_views(statuses@).take(k + 1)[k as int] == status@);
                        found = true;
                    }
                    k += 1;
                }
                assert(string_views(statuses@).take(statuses.len() as int) =~= string_views(statuses@));
                found
            };
            if !listed {
                return Vec::new();
            }
            let mut m = copy_str(field);
            append(&mut m, ": ");
            append(&mut m, reference);
            if check == RefCheck::TargetStatus {
                append(&mut m, " resolves, but its ");
                append(&mut m, sf);
                append(&mut m, " is ");
                append(&mut m, status);
                one(new_finding(RULE_POINTER_TARGET_STATUS, FindingSeverity::Warning, r.path.as_str(), None, m))
            } else {
                append(&mut m, " has reached a terminal status (");
                append(&mut m, status);
                append(&mut m, ") -- re-examine whether this record's ");
                append(&mut m, relation_field_name(config, r.record_type.as_str(), RelationRole::Status));
                append(&mut m, "/");
                append(&mut m, field);
                append(&mut m, " should update");
                one(new_finding(RULE_NARRATIVE_FIELD_STALE, FindingSeverity::Warning, r.path.as_str(), None, m))
            }
        },
        RefCheck::TargetStatusUndeclared => {
            let t = match target {
                Some(t) => t,
                None => return Vec::new(),
            };
            let sf = relation_field_name(config, t.record_type.as_str(), RelationRole::Status);
            let declared = match config.type_config(t.record_type.as_str()) {
                Some(tc) => tc.declares(sf),
                None => false,
            };
            if declared {
                return Vec::new();
            }
            let mut m = copy_str(field);
            append(&mut m, ": ");
            append(&mut m, reference);
            append(&mut m, " resolves, but its type '");
            append(&mut m, t.record_type.as_str());
            append(&mut m, "' does not declare ");
            append(&mut m, sf);
            append(&mut m, " -- its status can never be checked");
            one(new_finding(RULE_RELATION_TARGET_STATUS_UNDECLARED, FindingSeverity::Warning, r.path.as_str(), None, m))
        },
        RefCheck::PointerClean => Vec::new(),
    }
}

fn judge_ref_slot(
    check: RefCheck,
    config: &Config,
    index: Option<&RecordIndex>,
    statuses: &[String],
    r: &Record,
    field: &str,
) -> (v: (Outcome, Vec<Finding>))
    ensures
        v.0 == ref_verdict(check, *config, ref_targets(index), string_views(statuses@), *r, field@).0,
        finding_views(v.1@) == ref_verdict(check, *config, ref_targets(index), string_views(statuses@), *r, field@).1,
{
    let value = r.header.get(field);
    if check == RefCheck::PointerClean {
        let v = match value {
            Some(v) => v,
            None => return (Outcome::Absent, Vec::new()),
        };
        let cs = chars_of(v);
        let t = trim_vec(&cs);
        let dash = vec!['\u{2014}'];
        assert(dash@ =~= no_value());
        if seq_eq(&t, &dash) {
            return (Outcome::Examined, Vec::new());
        }
        let entries = split_char_exec(&cs, ',');
        let ghost ev = views(entries@);
        let mut out: Vec<Finding> = Vec::new();
        let mut i: usize = 0;
        while i < entries.len()
            invariant
                i <= entries.len(),
                ev == views(entries@),
                finding_views(out@) == clean_findings(*r, field@, ev.take(i as int)),
            decreases entries.len() - i,
        {
            assert(ev.take(i + 1).drop_last() =~= ev.take(i as int));
            assert(ev.take(i + 1).last() == entries@[i as int]@);
            let e = trim_vec(&entries[i]);
            if !is_record_reference(&e) {
                let mut m = copy_str(field);
                append(&mut m, " entry ");
                let es = string_of(&e);
                let d = debug_str(es.as_str());
                append(&mut m, d.as_str());
                append(
                    &mut m,
                    " isn't a clean reference -- pointer fields should hold only comma-separated reference IDs (e.g. \"RFC-1\", not \"RFC-1 (Accepted)\"); pointer.resolution already reports a resolved target's live Status",
                );
                let ghost before = finding_views(out@);
                out.push(new_finding(RULE_HEADER_POINTER_FIELD_CLEAN, FindingSeverity::Warning, r.path.as_str(), None, m));
                assert(finding_views(out@) =~= before + seq![out@.last()@]);
            }
            i += 1;
        }
        assert(ev.take(entries.len() as int) =~= ev);
        return (Outcome::Examined, out);
    }
    if r.header.region.is_none() {
        return (Outcome::Unreadable, Vec::new());
    }
    let v = match value {
        Some(v) => v,
        None => return (Outcome::Absent, Vec::new()),
    };
    let refs = extract_references(v);
    let ghost rv = refs@.map_values(|s: String| s@);
    if refs.len() == 0 {
        return (Outcome::Absent, Vec::new());
    }
    let mut out: Vec<Finding> = Vec::new();
    let mut i: usize = 0;
    while i < refs.len()
        invariant
            i <= refs.len(),
            rv == refs@.map_values(|s: String| s@),
            finding_views(out@) == references_findings(
                check,
                *config,
                ref_targets(index),
                string_views(statuses@),
                *r,
                field@,
                rv.take(i as int),
            ),
        decreases refs.len() - i,
    {
        assert(rv.take(i + 1).drop_last() =~= rv.take(i as int));
        assert(rv.take(i + 1).last() == refs@[i as int]@);
        let mut fs = judge_reference(check, config, index, statuses, r, field, refs[i].as_str());
        let ghost before = finding_views(out@);
        let ghost add = finding_views(fs@);
        out.append(&mut fs);
        assert(finding_views(out@) =~= before + add);
        i += 1;
    }
    assert(rv.take(refs.len() as int) =~= rv);
    (Outcome::Examined, out)
}

/// Judges every slot `sel` picks with the reference check `check`.
pub fn judge_ref_slots(
    records: &[Record],
    config: &Config,
    index: Option<&RecordIndex>,
    statuses: &[String],
    sel: FieldSlots,
    check: RefCheck,
) -> (r: (Vec<Outcome>, Vec<String>, Vec<Finding>))
    ensures
        r.0@ == outcomes_by(
            slots_of(*config, records@, sel),
            |s: (int, Seq<char>)|
                ref_verdict(check, *config, ref_targets(index), string_views(statuses@), records@[s.0], s.1).0,
        ),
        string_views(r.1@) == paths_by(
            slots_of(*config, records@, sel),
            |s: (int, Seq<char>)| records@[s.0].path@,
        ),
        finding_views(r.2@) == findings_by(
            slots_of(*config, records@, sel),
            |s: (int, Seq<char>)|
                ref_verdict(check, *config, ref_targets(index), string_views(statuses@), records@[s.0], s.1).1,
        ),
        r.0@.len() == r.1@.len(),
{
    let slots = field_slots(records, config, sel);
    let ghost sv = slot_views(slots@);
    let mut outcomes: Vec<Outcome> = Vec::new();
    let mut paths: Vec<String> = Vec::new();
    let mut findings: Vec<Finding> = Vec::new();
    let mut k: usize = 0;
    while k < slots.len()
        invariant
            k <= slots.len(),
            sv == slot_views(slots@),
            sv == slots_of(*config, records@, sel),
            forall|m: int| 0 <= m < slots@.len() ==> (#[trigger] slots@[m]).0 < records@.len(),
            outcomes@ == outcomes_by(
                sv.take(k as int),
                |s: (int, Seq<char>)|
                    ref_verdict(check, *config, ref_targets(index), string_views(statuses@), records@[s.0], s.1).0,
            ),
            string_views(paths@) == paths_by(sv.take(k as int), |s: (int, Seq<char>)| records@[s.0].path@),
            finding_views(findings@) == findings_by(
                sv.take(k as int),
                |s: (int, Seq<char>)|
                    ref_verdict(check, *config, ref_targets(index), string_views(statuses@), records@[s.0], s.1).1,
            ),
            outcomes@.len() == paths@.len(),
        decreases slots.len() - k,
    {
        assert(sv.take(k + 1).drop_last() =~= sv.take(k as int));
        assert(sv.take(k + 1).last() == sv[k as int]);
        let i = slots[k].0;
        assert(sv[k as int] == (i as int, slots@[k as int].1@));
        let (o, mut fs) = judge_ref_slot(check, config, index, statuses, &records[i], slots[k].1.as_str());
        outcomes.push(o);
        let ghost before_paths = string_views(paths@);
        paths.push(records[i].path.clone());
        assert(string_views(paths@) =~= before_paths.push(records@[i as int].path@));
        let ghost before = finding_views(findings@);
        let ghost add = finding_views(fs@);
        findings.append(&mut fs);
        assert(finding_views(findings@) =~= before + add);
        k += 1;
    }
    assert(sv.take(slots.len() as int) =~= sv);
    (outcomes, paths, findings)
}

/// Every reference a pointer or narrative field writes resolves to a
/// discovered record. A slot left unwritten, or written without a reference,
/// is in the population and not judged.
pub fn pointer_resolution(records: &[Record], config: &Config, index: &RecordIndex) -> (r: (RuleExecution, Vec<Finding>))
    ensures
        ran_as(
            r.0,
            RULE_POINTER_RESOLUTION@,
            PopulationUnit::Field,
            outcomes_by(
                slots_of(*config, records@, FieldSlots::PointerAndNarrative),
                |s: (int, Seq<char>)| ref_verdict(RefCheck::Resolution, *config, index.targets(), Seq::<Seq<char>>::empty(), records@[s.0], s.1).0,
            ),
            paths_by(slots_of(*config, records@, FieldSlots::PointerAndNarrative), |s: (int, Seq<char>)| records@[s.0].path@),
        ),
        finding_views(r.1@) == findings_by(
            slots_of(*config, records@, FieldSlots::PointerAndNarrative),
            |s: (int, Seq<char>)| ref_verdict(RefCheck::Resolution, *config, index.targets(), Seq::<Seq<char>>::empty(), records@[s.0], s.1).1,
        ),
{
    let statuses: &[String] = &[];
    assert(string_views(statuses@) =~= Seq::<Seq<char>>::empty());
    let (outcomes, paths, findings) = judge_ref_slots(records, config, Some(index), statuses, FieldSlots::PointerAndNarrative, RefCheck::Resolution);
    (finish_records(RULE_POINTER_RESOLUTION, PopulationUnit::Field, &outcomes, &paths), findings)
}

/// A resolved reference whose target is in one of the statuses the
/// repository declared unacceptable (`not_in`). The target's status is read
/// from the field its own type uses for it, and only when that type declares
/// the field; a lookup that fails is unjudged, not a match.
pub fn pointer_target_status(records: &[Record], config: &Config, not_in: &[String], index: &RecordIndex) -> (r: (RuleExecution, Vec<Finding>))
    ensures
        ran_as(
            r.0,
            RULE_POINTER_TARGET_STATUS@,
            PopulationUnit::Field,
            outcomes_by(
                slots_of(*config, records@, FieldSlots::PointerAndNarrative),
                |s: (int, Seq<char>)| ref_verdict(RefCheck::TargetStatus, *config, index.targets(), string_views(not_in@), records@[s.0], s.1).0,
            ),
            paths_by(slots_of(*config, records@, FieldSlots::PointerAndNarrative), |s: (int, Seq<char>)| records@[s.0].path@),
        ),
        finding_views(r.1@) == findings_by(
            slots_of(*config, records@, FieldSlots::PointerAndNarrative),
            |s: (int, Seq<char>)| ref_verdict(RefCheck::TargetStatus, *config, index.targets(), string_views(not_in@), records@[s.0], s.1).1,
        ),
{
    let statuses: &[String] = not_in;
    assert(string_views(statuses@) =~= string_views(not_in@));
    let (outcomes, paths, findings) = judge_ref_slots(records, config, Some(index), statuses, FieldSlots::PointerAndNarrative, RefCheck::TargetStatus);
    (finish_records(RULE_POINTER_TARGET_STATUS, PopulationUnit::Field, &outcomes, &paths), findings)
}

/// A narrative field's reference whose target has reached a terminal status:
/// the relationship has probably cleared and the record should be
/// re-examined. A dangling reference is `pointer.resolution`'s business.
pub fn narrative_field_stale(records: &[Record], config: &Config, terminal_statuses: &[String], index: &RecordIndex) -> (r: (RuleExecution, Vec<Finding>))
    ensures
        ran_as(
            r.0,
            RULE_NARRATIVE_FIELD_STALE@,
            PopulationUnit::Field,
            outcomes_by(
                slots_of(*config, records@, FieldSlots::Narrative),
                |s: (int, Seq<char>)| ref_verdict(RefCheck::Stale, *config, index.targets(), string_views(terminal_statuses@), records@[s.0], s.1).0,
            ),
            paths_by(slots_of(*config, records@, FieldSlots::Narrative), |s: (int, Seq<char>)| records@[s.0].path@),
        ),
        finding_views(r.1@) == findings_by(
            slots_of(*config, records@, FieldSlots::Narrative),
            |s: (int, Seq<char>)| ref_verdict(RefCheck::Stale, *config, index.targets(), string_views(terminal_statuses@), records@[s.0], s.1).1,
        ),
{
    let statuses: &[String] = terminal_statuses;
    assert(string_views(statuses@) =~= string_views(terminal_statuses@));
    let (outcomes, paths, findings) = judge_ref_slots(records, config, Some(index), statuses, FieldSlots::Narrative, RefCheck::Stale);
    (finish_records(RULE_NARRATIVE_FIELD_STALE, PopulationUnit::Field, &outcomes, &paths), findings)
}

/// A resolved reference whose target's type does not declare the field its
/// status is read from: every status rule silently skips such a target, and
/// this is the one place that says so.
pub fn relation_target_status_undeclared(records: &[Record], config: &Config, index: &RecordIndex) -> (r: (RuleExecution, Vec<Finding>))
    ensures
        ran_as(
            r.0,
            RULE_RELATION_TARGET_STATUS_UNDECLARED@,
            PopulationUnit::Field,
            outcomes_by(
                slots_of(*config, records@, FieldSlots::PointerAndNarrative),
                |s: (int, Seq<char>)| ref_verdict(RefCheck::TargetStatusUndeclared, *config, index.targets(), Seq::<Seq<char>>::empty(), records@[s.0], s.1).0,
            ),
            paths_by(slots_of(*config, records@, FieldSlots::PointerAndNarrative), |s: (int, Seq<char>)| records@[s.0].path@),
        ),
        finding_views(r.1@) == findings_by(
            slots_of(*config, records@, FieldSlots::PointerAndNarrative),
            |s: (int, Seq<char>)| ref_verdict(RefCheck::TargetStatusUndeclared, *config, index.targets(), Seq::<Seq<char>>::empty(), records@[s.0], s.1).1,
        ),
{
    let statuses: &[String] = &[];
    assert(string_views(statuses@) =~= Seq::<Seq<char>>::empty());
    let (outcomes, paths, findings) = judge_ref_slots(records, config, Some(index), statuses, FieldSlots::PointerAndNarrative, RefCheck::TargetStatusUndeclared);
    (finish_records(RULE_RELATION_TARGET_STATUS_UNDECLARED, PopulationUnit::Field, &outcomes, &paths), findings)
}

/// A pointer field holds only comma-separated reference ids (or `—`):
/// trailing prose such as a status annotation goes stale and is reported.
/// Narrative fields are exempt.
pub fn header_pointer_field_clean(records: &[Record], config: &Config) -> (r: (RuleExecution, Vec<Finding>))
    ensures
        ran_as(
            r.0,
            RULE_HEADER_POINTER_FIELD_CLEAN@,
            PopulationUnit::Field,
            outcomes_by(
                slots_of(*config, records@, FieldSlots::Pointer),
                |s: (int, Seq<char>)| ref_verdict(RefCheck::PointerClean, *config, Seq::<Record>::empty(), Seq::<Seq<char>>::empty(), records@[s.0], s.1).0,
            ),
            paths_by(slots_of(*config, records@, FieldSlots::Pointer), |s: (int, Seq<char>)| records@[s.0].path@),
        ),
        finding_views(r.1@) == findings_by(
            slots_of(*config, records@, FieldSlots::Pointer),
            |s: (int, Seq<char>)| ref_verdict(RefCheck::PointerClean, *config, Seq::<Record>::empty(), Seq::<Seq<char>>::empty(), records@[s.0], s.1).1,
        ),
{
    let statuses: &[String] = &[];
    assert(string_views(statuses@) =~= Seq::<Seq<char>>::empty());
    let (outcomes, paths, findings) = judge_ref_slots(records, config, None, statuses, FieldSlots::Pointer, RefCheck::PointerClean);
    (finish_records(RULE_HEADER_POINTER_FIELD_CLEAN, PopulationUnit::Field, &outcomes, &paths), findings)
}

// ---------------------------------------------------------------------------
// Relation rules: one candidate per record whose type declares the roles
// ---------------------------------------------------------------------------

/// Which roles' fields a relation rule's candidates must declare.
#[derive(Debug, Clone, Copy, PartialEq, Eq, Structural)]
pub enum RoleSlots {
    /// The embodiment locator (`Realized-by` by default).
    Locator,
    /// The embodiment state and its locator, as one pair.
    StateAndLocator,
    /// The supersession field.
    Supersession,
}

/// Whether `r`'s type declares the field of every role `w` needs; declared
/// means `required_fields` or `known_fields`.
pub open spec fn declares_roles(config: Config, r: Record, w: RoleSlots) -> bool {
    match lookup(config.record_types@, r.record_type@) {
        Some(t) => match w {
            RoleSlots::Locator => t.declares_spec(t.relation_field_spec(RelationRole::EmbodimentLocator)),
            RoleSlots::StateAndLocator => t.declares_spec(t.relation_field_spec(RelationRole::EmbodimentState))
                && t.declares_spec(t.relation_field_spec(RelationRole::EmbodimentLocator)),
            RoleSlots::Supersession => t.declares_spec(t.relation_field_spec(RelationRole::Supersession)),
        },
        None => false,
    }
}

/// The records whose type declares every role `w` needs, in order.
pub open spec fn role_records(config: Config, recs: Seq<Record>, w: RoleSlots) -> Seq<Record>
    decreases recs.len(),
{
    if recs.len() == 0 {
        Seq::empty()
    } else {
        role_records(config, recs.drop_last(), w) + if declares_roles(config, recs.last(), w) {
            seq![recs.last()]
        } else {
            Seq::empty()
        }
    }
}

/// A declared field's value, or the outcome its absence means: unreadable
/// when the header did not parse, absent otherwise.
pub open spec fn declared_read(r: Record, key: Seq<char>) -> Result<Seq<char>, Outcome> {
    if r.header.unreadable_spec() {
        Err(Outcome::Unreadable)
    } else {
        match get_spec(r.header.fields_v(), key) {
            Some(v) => Ok(v),
            None => Err(Outcome::Absent),
        }
    }
}

fn declared_value<'a>(r: &'a Record, key: &str) -> (v: Result<&'a str, Outcome>)
    ensures
        match v {
            Ok(s) => declared_read(*r, key@) == Ok::<Seq<char>, Outcome>(s@),
            Err(o) => declared_read(*r, key@) == Err::<Seq<char>, Outcome>(o),
        },
{
    match r.header.read_declared(key) {
        crate::header::FieldRead::Present(v) => Ok(v),
        crate::header::FieldRead::Missing => Err(Outcome::Absent),
        crate::header::FieldRead::Unreadable => Err(Outcome::Unreadable),
    }
}

/// The relation checks.
#[derive(Debug, Clone, Copy, PartialEq, Eq, Structural)]
pub enum RoleCheck {
    LocatorExists,
    Consistency,
    Supersession,
    PromotionCandidate,
}

pub open spec fn role_slots(check: RoleCheck) -> RoleSlots {
    match check {
        RoleCheck::LocatorExists | RoleCheck::PromotionCandidate => RoleSlots::Locator,
        RoleCheck::Consistency => RoleSlots::StateAndLocator,
        RoleCheck::Supersession => RoleSlots::Supersession,
    }
}

/// One finding per locator that is empty or names nothing in the working
/// tree (`present` lists the locators that do).
pub open spec fn locator_findings(r: Record, field: Seq<char>, present: Seq<Seq<char>>, locs: Seq<Seq<char>>) -> Seq<
    FindingView,
>
    decreases locs.len(),
{
    if locs.len() == 0 {
        Seq::empty()
    } else {
        let l = locs.last();
        locator_findings(r, field, present, locs.drop_last()) + if trim(l).len() == 0 {
            seq![
                finding_of(
                    RULE_EMBODIMENT_LOCATOR_EXISTS@,
                    FindingSeverity::Error,
                    r.path@,
                    None,
                    field + " has an empty locator"@,
                ),
            ]
        } else if present.contains(l) {
            Seq::empty()
        } else {
            seq![
                finding_of(
                    RULE_EMBODIMENT_LOCATOR_EXISTS@,
                    FindingSeverity::Error,
                    r.path@,
                    None,
                    field + " names '"@ + l + "', which is not in the working tree"@,
                ),
            ]
        }
    }
}

/// Whether a supersession value names `id` back.
pub open spec fn names_back(value: Seq<char>, id: Seq<char>) -> bool {
    exists|k: int| 0 <= k < references(value).len() && normalize(#[trigger] references(value)[k]) == normalize(id)
}

/// What supersession reports about one reference written by `r`.
pub open spec fn supersession_reference(
    config: Config,
    targets: Seq<Record>,
    r: Record,
    field: Seq<char>,
    id: Seq<char>,
    reference: Seq<char>,
) -> Seq<FindingView> {
    match resolve(targets, normalize(reference)) {
        None => seq![
            finding_of(
                RULE_RELATION_SUPERSESSION_RECIPROCITY@,
                FindingSeverity::Error,
                r.path@,
                None,
                field + ": "@ + reference + " does not resolve to any discovered record"@,
            ),
        ],
        Some(t) => {
            let tf = relation_name(config, t.record_type@, RelationRole::Supersession);
            let tv = match get_spec(t.header.fields_v(), tf) {
                Some(v) => v,
                None => Seq::empty(),
            };
            if names_back(tv, id) {
                Seq::empty()
            } else {
                seq![
                    finding_of(
                        RULE_RELATION_SUPERSESSION_RECIPROCITY@,
                        FindingSeverity::Error,
                        r.path@,
                        None,
                        field + " claims a relation with "@ + reference + ", but "@ + reference + "'s "@ + tf
                            + " does not reciprocally name "@ + id,
                    ),
                ]
            }
        },
    }
}

pub open spec fn supersession_findings(
    config: Config,
    targets: Seq<Record>,
    r: Record,
    field: Seq<char>,
    id: Seq<char>,
    refs: Seq<Seq<char>>,
) -> Seq<FindingView>
    decreases refs.len(),
{
    if refs.len() == 0 {
        Seq::empty()
    } else {
        supersession_findings(config, targets, r, field, id, refs.drop_last()) + supersession_reference(
            config,
            targets,
            r,
            field,
            id,
            refs.last(),
        )
    }
}

/// What `check` decides about the record `r`, and reports.
pub open spec fn role_verdict(
    check: RoleCheck,
    config: Config,
    targets: Seq<Record>,
    present: Seq<Seq<char>>,
    drifted: Seq<Seq<char>>,
    r: Record,
) -> (Outcome, Seq<FindingView>) {
    let lf = relation_name(config, r.record_type@, RelationRole::EmbodimentLocator);
    match check {
        RoleCheck::LocatorExists => match declared_read(r, lf) {
            Err(o) => (o, Seq::empty()),
            Ok(v) => (Outcome::Examined, locator_findings(r, lf, present, locators(realized(v)))),
        },
        RoleCheck::PromotionCandidate => match declared_read(r, lf) {
            Err(o) => (o, Seq::empty()),
            Ok(v) => (Outcome::Examined, Seq::empty()),
        },
        RoleCheck::Consistency => {
            let sf = relation_name(config, r.record_type@, RelationRole::EmbodimentState);
            match declared_read(r, sf) {
                Err(o) => (o, Seq::empty()),
                Ok(stated) => match declared_read(r, lf) {
                    Err(o) => (o, Seq::empty()),
                    Ok(v) => {
                        let computed = embodiment(realized(v), crate::order::has_same_path(drifted, r.path@));
                        if trim(stated) != computed {
                            (
                                Outcome::Examined,
                                seq![
                                    finding_of(
                                        RULE_EMBODIMENT_CONSISTENCY@,
                                        FindingSeverity::Warning,
                                        r.path@,
                                        None,
                                        "stated "@ + sf + " '"@ + trim(stated) + "' disagrees with '"@ + computed
                                            + "', computed from "@ + lf,
                                    ),
                                ],
                            )
                        } else {
                            (Outcome::Examined, Seq::empty())
                        }
                    },
                },
            }
        },
        RoleCheck::Supersession => {
            let field = relation_name(config, r.record_type@, RelationRole::Supersession);
            match r.id_spec() {
                None => (Outcome::OutOfScope, Seq::empty()),
                Some(id) => match get_spec(r.header.fields_v(), field) {
                    None => (Outcome::Absent, Seq::empty()),
                    Some(v) => if trim(v) == no_value() {
                        (Outcome::Examined, Seq::empty())
                    } else {
                        (Outcome::Examined, supersession_findings(config, targets, r, field, id, references(v)))
                    },
                },
            }
        },
    }
}

fn declares_roles_exec(config: &Config, r: &Record, w: RoleSlots) -> (b: bool)
    ensures
        b == declares_roles(*config, *r, w),
{
    match config.type_config(r.record_type.as_str()) {
        Some(t) => match w {
            RoleSlots::Locator => t.declares(t.relation_field(RelationRole::EmbodimentLocator)),
            RoleSlots::StateAndLocator => t.declares(t.relation_field(RelationRole::EmbodimentState)) && t.declares(
                t.relation_field(RelationRole::EmbodimentLocator),
            ),
            RoleSlots::Supersession => t.declares(t.relation_field(RelationRole::Supersession)),
        },
        None => false,
    }
}

fn names_back_exec(value: &str, id: &str) -> (b: bool)
    ensures
        b == names_back(value@, id@),
{
    let refs = extract_references(value);
    let ghost rv = refs@.map_values(|s: String| s@);
    let idc = chars_of(id);
    let idn = normalize_exec(&idc);
    let mut k: usize = 0;
    while k < refs.len()
        invariant
            k <= refs.len(),
            rv == refs@.map_values(|s: String| s@),
            rv == references(value@),
            idn@ == normalize(id@),
            forall|j: int| 0 <= j < k ==> normalize(#[trigger] rv[j]) != normalize(id@),
        decreases refs.len() - k,
    {
        let rc = chars_of(refs[k].as_str());
        let rn = normalize_exec(&rc);
        assert(rv[k as int] == refs@[k as int]@);
        if seq_eq(&rn, &idn) {
            return true;
        }
        k += 1;
    }
    false
}

fn judge_role(
    check: RoleCheck,
    config: &Config,
    index: Option<&RecordIndex>,
    present: &Vec<String>,
    drifted: &Vec<String>,
    r: &Record,
) -> (v: (Outcome, Vec<Finding>))
    ensures
        v.0 == role_verdict(check, *config, ref_targets(index), string_views(present@), string_views(drifted@), *r).0,
        finding_views(v.1@) == role_verdict(
            check,
            *config,
            ref_targets(index),
            string_views(present@),
            string_views(drifted@),
            *r,
        ).1,
{
    let lf = relation_field_name(config, r.record_type.as_str(), RelationRole::EmbodimentLocator);
    match check {
        RoleCheck::LocatorExists | RoleCheck::PromotionCandidate => {
            let v = match declared_value(r, lf) {
                Ok(v) => v,
                Err(o) => return (o, Vec::new()),
            };
            if check == RoleCheck::PromotionCandidate {
                return (Outcome::Examined, Vec::new());
            }
            let locs = realized_by_locator_paths_of(v);
            let ghost lv = locs@.map_values(|s: String| s@);
            let mut out: Vec<Finding> = Vec::new();
            let mut i: usize = 0;
            while i < locs.len()
                invariant
                    i <= locs.len(),
                    lv == locs@.map_values(|s: String| s@),
                    finding_views(out@) == locator_findings(*r, lf@, string_views(present@), lv.take(i as int)),
                decreases locs.len() - i,
            {
                assert(lv.take(i + 1).drop_last() =~= lv.take(i as int));
                assert(lv.take(i + 1).last() == locs@[i as int]@);
                let lc = chars_of(locs[i].as_str());
                let t = trim_vec(&lc);
                let ghost before = finding_views(out@);
                if t.len() == 0 {
                    let mut m = copy_str(lf);
                    append(&mut m, " has an empty locator");
                    out.push(new_finding(RULE_EMBODIMENT_LOCATOR_EXISTS, FindingSeverity::Error, r.path.as_str(), None, m));
                    assert(finding_views(out@) =~= before + seq![out@.last()@]);
                } else if !contains_string(present, locs[i].as_str()) {
                    let mut m = copy_str(lf);
                    append(&mut m, " names '");
                    append(&mut m, locs[i].as_str());
                    append(&mut m, "', which is not in the working tree");
                    out.push(new_finding(RULE_EMBODIMENT_LOCATOR_EXISTS, FindingSeverity::Error, r.path.as_str(), None, m));
                    assert(finding_views(out@) =~= before + seq![out@.last()@]);
                } else {
                    assert(before + Seq::<FindingView>::empty() =~= before);
                }
                i += 1;
            }
            assert(lv.take(locs.len() as int) =~= lv);
            (Outcome::Examined, out)
        },
        RoleCheck::Consistency => {
            let sf = relation_field_name(config, r.record_type.as_str(), RelationRole::EmbodimentState);
            let stated = match declared_value(r, sf) {
                Ok(v) => v,
                Err(o) => return (o, Vec::new()),
            };
            let v = match declared_value(r, lf) {
                Ok(v) => v,
                Err(o) => return (o, Vec::new()),
            };
            let parsed = parse_realized_by(v);
            let is_drifted = crate::order::contains_path(drifted, r.path.as_str());
            let computed = compute_embodiment(&parsed, is_drifted);
            let sc = chars_of(stated);
            let st = trim_vec(&sc);
            let cc = chars_of(computed);
            if !seq_eq(&st, &cc) {
                let mut m = copy_str("stated ");
                append(&mut m, sf);
                append(&mut m, " '");
                let sts = string_of(&st);
                append(&mut m, sts.as_str());
                append(&mut m, "' disagrees with '");
                append(&mut m, computed);
                append(&mut m, "', computed from ");
                append(&mut m, lf);
                return (
                    Outcome::Examined,
                    one(new_finding(RULE_EMBODIMENT_CONSISTENCY, FindingSeverity::Warning, r.path.as_str(), None, m)),
                );
            }
            (Outcome::Examined, Vec::new())
        },
        RoleCheck::Supersession => {
            let field = relation_field_name(config, r.record_type.as_str(), RelationRole::Supersession);
            let id = match r.id() {
                Some(id) => id,
                None => return (Outcome::OutOfScope, Vec::new()),
            };
            let v = match r.header.get(field) {
                Some(v) => v,
                None => return (Outcome::Absent, Vec::new()),
            };
            let vc = chars_of(v);
            let vt = trim_vec(&vc);
            let dash = vec!['\u{2014}'];
            assert(dash@ =~= no_value());
            if seq_eq(&vt, &dash) {
                return (Outcome::Examined, Vec::new());
            }
            let refs = extract_references(v);
            let ghost rv = refs@.map_values(|s: String| s@);
            let mut out: Vec<Finding> = Vec::new();
            let mut i: usize = 0;
            while i < refs.len()
                invariant
                    i <= refs.len(),
                    rv == refs@.map_values(|s: String| s@),
                    finding_views(out@) == supersession_findings(
                        *config,
                        ref_targets(index),
                        *r,
                        field@,
                        id@,
                        rv.take(i as int),
                    ),
                decreases refs.len() - i,
            {
                assert(rv.take(i + 1).drop_last() =~= rv.take(i as int));
                assert(rv.take(i + 1).last() == refs@[i as int]@);
                let reference = refs[i].as_str();
                let rc = chars_of(reference);
                let key = normalize_exec(&rc);
                let target = match index {
                    Some(ix) => ix.get(&key),
                    None => None,
                };
                proof {
                    if index is None {
                        crate::references::lemma_first_claimant(Seq::<Record>::empty(), normalize(reference@));
                    }
                }
                let ghost before = finding_views(out@);
                match target {
                    None => {
                        let mut m = copy_str(field);
                        append(&mut m, ": ");
                        append(&mut m, reference);
                        append(&mut m, " does not resolve to any discovered record");
                        out.push(new_finding(
                            RULE_RELATION_SUPERSESSION_RECIPROCITY,
                            FindingSeverity::Error,
                            r.path.as_str(),
                            None,
                            m,
                        ));
                        assert(finding_views(out@) =~= before + seq![out@.last()@]);
                    },
                    Some(t) => {
                        let tf = relation_field_name(config, t.record_type.as_str(), RelationRole::Supersession);
                        let tv = match t.header.get(tf) {
                            Some(x) => x,
                            None => "",
                        };
                        proof {
                            reveal_strlit("");
                        }
                        if !names_back_exec(tv, id.as_str()) {
                            let mut m = copy_str(field);
                            append(&mut m, " claims a relation with ");
                            append(&mut m, reference);
                            append(&mut m, ", but ");
                            append(&mut m, reference);
                            append(&mut m, "'s ");
                            append(&mut m, tf);
                            append(&mut m, " does not reciprocally name ");
                            append(&mut m, id.as_str());
                            out.push(new_finding(
                                RULE_RELATION_SUPERSESSION_RECIPROCITY,
                                FindingSeverity::Error,
                                r.path.as_str(),
                                None,
                                m,
                            ));
                            assert(finding_views(out@) =~= before + seq![out@.last()@]);
                        } else {
                            assert(before + Seq::<FindingView>::empty() =~= before);
                        }
                    },
                }
                i += 1;
            }
            assert(rv.take(refs.len() as int) =~= rv);
            (Outcome::Examined, out)
        },
    }
}

fn realized_by_locator_paths_of(v: &str) -> (r: Vec<String>)
    ensures
        r@.map_values(|s: String| s@) == locators(realized(v@)),
{
    crate::embodiment::realized_by_locator_paths(v)
}

/// Judges every record whose type declares the roles `check` needs.
pub fn judge_role_records(
    records: &[Record],
    config: &Config,
    index: Option<&RecordIndex>,
    present: &Vec<String>,
    drifted: &Vec<String>,
    check: RoleCheck,
) -> (r: (Vec<Outcome>, Vec<String>, Vec<Finding>))
    ensures
        r.0@ == outcomes_by(
            role_records(*config, records@, role_slots(check)),
            |rec: Record|
                role_verdict(check, *config, ref_targets(index), string_views(present@), string_views(drifted@), rec).0,
        ),
        string_views(r.1@) == paths_by(role_records(*config, records@, role_slots(check)), |rec: Record| rec.path@),
        finding_views(r.2@) == findings_by(
            role_records(*config, records@, role_slots(check)),
            |rec: Record|
                role_verdict(check, *config, ref_targets(index), string_views(present@), string_views(drifted@), rec).1,
        ),
        r.0@.len() == r.1@.len(),
{
    let w = match check {
        RoleCheck::LocatorExists | RoleCheck::PromotionCandidate => RoleSlots::Locator,
        RoleCheck::Consistency => RoleSlots::StateAndLocator,
        RoleCheck::Supersession => RoleSlots::Supersession,
    };
    let mut outcomes: Vec<Outcome> = Vec::new();
    let mut paths: Vec<String> = Vec::new();
    let mut findings: Vec<Finding> = Vec::new();
    let mut i: usize = 0;
    while i < records.len()
        invariant
            i <= records.len(),
            w == role_slots(check),
            outcomes@ == outcomes_by(
                role_records(*config, records@.take(i as int), w),
                |rec: Record|
                    role_verdict(check, *config, ref_targets(index), string_views(present@), string_views(drifted@), rec).0,
            ),
            string_views(paths@) == paths_by(role_records(*config, records@.take(i as int), w), |rec: Record| rec.path@),
            finding_views(findings@) == findings_by(
                role_records(*config, records@.take(i as int), w),
                |rec: Record|
                    role_verdict(check, *config, ref_targets(index), string_views(present@), string_views(drifted@), rec).1,
            ),
            outcomes@.len() == paths@.len(),
        decreases records.len() - i,
    {
        let ghost pre = role_records(*config, records@.take(i as int), w);
        assert(records@.take(i + 1).drop_last() =~= records@.take(i as int));
        assert(records@.take(i + 1).last() == records@[i as int]);
        if declares_roles_exec(config, &records[i], w) {
            let ghost post = role_records(*config, records@.take(i + 1), w);
            assert(post =~= pre.push(records@[i as int]));
            assert(post.drop_last() =~= pre);
            let (o, mut fs) = judge_role(check, config, index, present, drifted, &records[i]);
            outcomes.push(o);
            let ghost before_paths = string_views(paths@);
            paths.push(records[i].path.clone());
            assert(string_views(paths@) =~= before_paths.push(records@[i as int].path@));
            let ghost before = finding_views(findings@);
            let ghost add = finding_views(fs@);
            findings.append(&mut fs);
            assert(finding_views(findings@) =~= before + add);
        } else {
            assert(role_records(*config, records@.take(i + 1), w) =~= pre);
        }
        i += 1;
    }
    assert(records@.take(records.len() as int) =~= records@);
    (outcomes, paths, findings)
}

/// Supersession is reciprocal: every record a supersession field names must
/// resolve, and must name the writing record back in its own supersession
/// field. `—` is the written "nothing supersedes this"; a record whose
/// filename yields no identifier cannot be named back and is out of scope.
pub fn supersession_reciprocity(records: &[Record], config: &Config, index: &RecordIndex) -> (r: (RuleExecution, Vec<Finding>))
    ensures
        ran_as(
            r.0,
            RULE_RELATION_SUPERSESSION_RECIPROCITY@,
            PopulationUnit::Field,
            outcomes_by(
                role_records(*config, records@, role_slots(RoleCheck::Supersession)),
                |rec: Record| role_verdict(RoleCheck::Supersession, *config, index.targets(), Seq::<Seq<char>>::empty(), Seq::<Seq<char>>::empty(), rec).0,
            ),
            paths_by(role_records(*config, records@, role_slots(RoleCheck::Supersession)), |rec: Record| rec.path@),
        ),
        finding_views(r.1@) == findings_by(
            role_records(*config, records@, role_slots(RoleCheck::Supersession)),
            |rec: Record| role_verdict(RoleCheck::Supersession, *config, index.targets(), Seq::<Seq<char>>::empty(), Seq::<Seq<char>>::empty(), rec).1,
        ),
{
    let no_paths: Vec<String> = Vec::new();
    let present_list: &Vec<String> = &no_paths;
    let drifted_list: &Vec<String> = &no_paths;
    assert(string_views(no_paths@) =~= Seq::<Seq<char>>::empty());
    let (outcomes, paths, findings) = judge_role_records(records, config, Some(index), present_list, drifted_list, RoleCheck::Supersession);
    (finish_records(RULE_RELATION_SUPERSESSION_RECIPROCITY, PopulationUnit::Field, &outcomes, &paths), findings)
}

/// Every embodiment locator names a path in the working tree: a locator
/// naming nothing lets a record claim verified work against a missing file.
/// `present` lists the locators the caller found in the working tree.
pub fn embodiment_locator_exists(records: &[Record], config: &Config, present: &Vec<String>) -> (r: (RuleExecution, Vec<Finding>))
    ensures
        ran_as(
            r.0,
            RULE_EMBODIMENT_LOCATOR_EXISTS@,
            PopulationUnit::Field,
            outcomes_by(
                role_records(*config, records@, role_slots(RoleCheck::LocatorExists)),
                |rec: Record| role_verdict(RoleCheck::LocatorExists, *config, Seq::<Record>::empty(), string_views(present@), Seq::<Seq<char>>::empty(), rec).0,
            ),
            paths_by(role_records(*config, records@, role_slots(RoleCheck::LocatorExists)), |rec: Record| rec.path@),
        ),
        finding_views(r.1@) == findings_by(
            role_records(*config, records@, role_slots(RoleCheck::LocatorExists)),
            |rec: Record| role_verdict(RoleCheck::LocatorExists, *config, Seq::<Record>::empty(), string_views(present@), Seq::<Seq<char>>::empty(), rec).1,
        ),
{
    let no_paths: Vec<String> = Vec::new();
    let present_list: &Vec<String> = present;
    let drifted_list: &Vec<String> = &no_paths;
    assert(string_views(no_paths@) =~= Seq::<Seq<char>>::empty());
    let (outcomes, paths, findings) = judge_role_records(records, config, None, present_list, drifted_list, RoleCheck::LocatorExists);
    (finish_records(RULE_EMBODIMENT_LOCATOR_EXISTS, PopulationUnit::Field, &outcomes, &paths), findings)
}

/// A record's stated embodiment agrees with what its own locators compute
/// to, drift included. `drifted` lists the records whose locators changed
/// since their locator line was last touched, which the caller reads from
/// history.
pub fn embodiment_consistency(records: &[Record], config: &Config, drifted: &Vec<String>) -> (r: (RuleExecution, Vec<Finding>))
    ensures
        ran_as(
            r.0,
            RULE_EMBODIMENT_CONSISTENCY@,
            PopulationUnit::Field,
            outcomes_by(
                role_records(*config, records@, role_slots(RoleCheck::Consistency)),
                |rec: Record| role_verdict(RoleCheck::Consistency, *config, Seq::<Record>::empty(), Seq::<Seq<char>>::empty(), string_views(drifted@), rec).0,
            ),
            paths_by(role_records(*config, records@, role_slots(RoleCheck::Consistency)), |rec: Record| rec.path@),
        ),
        finding_views(r.1@) == findings_by(
            role_records(*config, records@, role_slots(RoleCheck::Consistency)),
            |rec: Record| role_verdict(RoleCheck::Consistency, *config, Seq::<Record>::empty(), Seq::<Seq<char>>::empty(), string_views(drifted@), rec).1,
        ),
{
    let no_paths: Vec<String> = Vec::new();
    let present_list: &Vec<String> = &no_paths;
    let drifted_list: &Vec<String> = drifted;
    assert(string_views(no_paths@) =~= Seq::<Seq<char>>::empty());
    let (outcomes, paths, findings) = judge_role_records(records, config, None, present_list, drifted_list, RoleCheck::Consistency);
    (finish_records(RULE_EMBODIMENT_CONSISTENCY, PopulationUnit::Field, &outcomes, &paths), findings)
}

/// The `(locator, citing record)` pairs one record contributes.
pub open spec fn record_citations(config: Config, r: Record) -> Seq<(Seq<char>, Seq<char>)> {
    let lf = relation_name(config, r.record_type@, RelationRole::EmbodimentLocator);
    match declared_read(r, lf) {
        Ok(v) => locators(realized(v)).map_values(|l: Seq<char>| (l, r.path@)),
        Err(_) => Seq::empty(),
    }
}

/// Every `(locator, citing record)` pair, records in order.
pub open spec fn citations(config: Config, recs: Seq<Record>) -> Seq<(Seq<char>, Seq<char>)>
    decreases recs.len(),
{
    if recs.len() == 0 {
        Seq::empty()
    } else {
        citations(config, recs.drop_last()) + record_citations(config, recs.last())
    }
}

/// The records citing `l`, in citation order.
pub open spec fn citers(cs: Seq<(Seq<char>, Seq<char>)>, l: Seq<char>) -> Seq<Seq<char>>
    decreases cs.len(),
{
    if cs.len() == 0 {
        Seq::empty()
    } else {
        citers(cs.drop_last(), l) + if cs.last().0 == l {
            seq![cs.last().1]
        } else {
            Seq::empty()
        }
    }
}

/// What `embodiment.locator-promotion-candidate` reports about the locator
/// `l`: cited by two or more distinct records, listed in path order, the
/// finding filed against the first. A record is one path however its path
/// is spelled.
pub open spec fn promotion_findings(cs: Seq<(Seq<char>, Seq<char>)>, l: Seq<char>) -> Seq<FindingView> {
    let ps = path_sorted(path_distinct(citers(cs, l)));
    if ps.len() >= 2 {
        seq![
            finding_of(
                RULE_EMBODIMENT_LOCATOR_PROMOTION_CANDIDATE@,
                FindingSeverity::Warning,
                ps[0],
                None,
                "locator '"@ + l + "' is cited by "@ + decimal(ps.len()) + " records ("@ + join(ps, ", "@)
                    + ") -- consider promoting to a shared claim record"@,
            ),
        ]
    } else {
        Seq::empty()
    }
}

fn dedup_strings(v: &Vec<String>) -> (r: Vec<String>)
    ensures
        string_views(r@) == dedup(string_views(v@)),
{
    let ghost vs = string_views(v@);
    let mut r: Vec<String> = Vec::new();
    let mut i: usize = 0;
    while i < v.len()
        invariant
            i <= v.len(),
            vs == string_views(v@),
            string_views(r@) == dedup(vs.take(i as int)),
        decreases v.len() - i,
    {
        assert(vs.take(i + 1).drop_last() =~= vs.take(i as int));
        assert(vs.take(i + 1).last() == v@[i as int]@);
        if !contains_string(&r, v[i].as_str()) {
            let ghost before = string_views(r@);
            r.push(v[i].clone());
            assert(string_views(r@) =~= before.push(v@[i as int]@));
        }
        i += 1;
    }
    assert(vs.take(v.len() as int) =~= vs);
    r
}

/// The same locator cited by more than one record's locator field: each
/// record would otherwise drift independently on what is one piece of shared
/// evidence. Reports only; promotion stays a human decision. Findings come
/// in locator order.
pub fn embodiment_locator_promotion_candidate(records: &[Record], config: &Config) -> (r: (
    RuleExecution,
    Vec<Finding>,
))
    ensures
        ran_as(
            r.0,
            RULE_EMBODIMENT_LOCATOR_PROMOTION_CANDIDATE@,
            PopulationUnit::Field,
            outcomes_by(
                role_records(*config, records@, RoleSlots::Locator),
                |rec: Record|
                    role_verdict(
                        RoleCheck::PromotionCandidate,
                        *config,
                        Seq::<Record>::empty(),
                        Seq::<Seq<char>>::empty(),
                        Seq::<Seq<char>>::empty(),
                        rec,
                    ).0,
            ),
            paths_by(role_records(*config, records@, RoleSlots::Locator), |rec: Record| rec.path@),
        ),
        finding_views(r.1@) == findings_by(
            sorted(dedup(citations(*config, role_records(*config, records@, RoleSlots::Locator)).map_values(
                |c: (Seq<char>, Seq<char>)| c.0,
            ))),
            |l: Seq<char>|
                promotion_findings(citations(*config, role_records(*config, records@, RoleSlots::Locator)), l),
        ),
{
    let no_paths: Vec<String> = Vec::new();
    assert(string_views(no_paths@) =~= Seq::<Seq<char>>::empty());
    let (outcomes, paths, _none) = judge_role_records(
        records,
        config,
        None,
        &no_paths,
        &no_paths,
        RoleCheck::PromotionCandidate,
    );
    let ghost rr = role_records(*config, records@, RoleSlots::Locator);
    // Every citation, in record order.
    let mut cite_locs: Vec<String> = Vec::new();
    let mut cite_paths: Vec<String> = Vec::new();
    let mut i: usize = 0;
    while i < records.len()
        invariant
            i <= records.len(),
            cite_locs@.len() == cite_paths@.len(),
            string_views(cite_locs@) == citations(*config, role_records(*config, records@.take(i as int), RoleSlots::Locator)).map_values(
                |c: (Seq<char>, Seq<char>)| c.0,
            ),
            string_views(cite_paths@) == citations(*config, role_records(*config, records@.take(i as int), RoleSlots::Locator)).map_values(
                |c: (Seq<char>, Seq<char>)| c.1,
            ),
        decreases records.len() - i,
    {
        let ghost pre = role_records(*config, records@.take(i as int), RoleSlots::Locator);
        assert(records@.take(i + 1).drop_last() =~= records@.take(i as int));
        assert(records@.take(i + 1).last() == records@[i as int]);
        let rec = &records[i];
        if declares_roles_exec(config, rec, RoleSlots::Locator) {
            let ghost post = role_records(*config, records@.take(i + 1), RoleSlots::Locator);
            assert(post =~= pre.push(records@[i as int]));
            assert(post.drop_last() =~= pre);
            let lf = relation_field_name(config, rec.record_type.as_str(), RelationRole::EmbodimentLocator);
            match declared_value(rec, lf) {
                Ok(v) => {
                    let locs = realized_by_locator_paths_of(v);
                    let ghost lv = locs@.map_values(|s: String| s@);
                    let ghost start_l = string_views(cite_locs@);
                    let ghost start_p = string_views(cite_paths@);
                    let mut k: usize = 0;
                    while k < locs.len()
                        invariant
                            k <= locs.len(),
                            lv == locs@.map_values(|s: String| s@),
                            cite_locs@.len() == cite_paths@.len(),
                            string_views(cite_locs@) == start_l + lv.take(k as int),
                            string_views(cite_paths@) == start_p + Seq::new(k as nat, |j: int| rec.path@),
                        decreases locs.len() - k,
                    {
                        let ghost bl = string_views(cite_locs@);
                        let ghost bp = string_views(cite_paths@);
                        cite_locs.push(locs[k].clone());
                        cite_paths.push(rec.path.clone());
                        assert(string_views(cite_locs@) =~= bl.push(lv[k as int]));
                        assert(string_views(cite_paths@) =~= bp.push(rec.path@));
                        assert(lv.take(k + 1) =~= lv.take(k as int).push(lv[k as int]));
                        assert(Seq::new((k + 1) as nat, |j: int| rec.path@) =~= Seq::new(k as nat, |j: int| rec.path@).push(rec.path@));
                        k += 1;
                    }
                    let ghost rc = record_citations(*config, records@[i as int]);
                    assert(rc =~= lv.map_values(|l: Seq<char>| (l, rec.path@)));
                    assert(rc.map_values(|c: (Seq<char>, Seq<char>)| c.0) =~= lv);
                    assert(rc.map_values(|c: (Seq<char>, Seq<char>)| c.1) =~= Seq::new(lv.len(), |j: int| rec.path@));
                    assert(lv.take(locs.len() as int) =~= lv);
                    let ghost cpre = citations(*config, pre);
                    assert(citations(*config, post) == cpre + rc);
                    assert((cpre + rc).map_values(|c: (Seq<char>, Seq<char>)| c.0) =~= cpre.map_values(
                        |c: (Seq<char>, Seq<char>)| c.0,
                    ) + rc.map_values(|c: (Seq<char>, Seq<char>)| c.0));
                    assert((cpre + rc).map_values(|c: (Seq<char>, Seq<char>)| c.1) =~= cpre.map_values(
                        |c: (Seq<char>, Seq<char>)| c.1,
                    ) + rc.map_values(|c: (Seq<char>, Seq<char>)| c.1));
                },
                Err(_) => {
                    let ghost cpre = citations(*config, pre);
                    assert(record_citations(*config, records@[i as int]) =~= Seq::<(Seq<char>, Seq<char>)>::empty());
                    assert(citations(*config, post) =~= cpre);
                },
            }
        } else {
            assert(role_records(*config, records@.take(i + 1), RoleSlots::Locator) =~= pre);
        }
        i += 1;
    }
    assert(records@.take(records.len() as int) =~= records@);
    let ghost cs = citations(*config, rr);
    let distinct_locs = dedup_strings(&cite_locs);
    let locs = sort_strings(distinct_locs);
    let ghost lsv = string_views(locs@);
    let mut findings: Vec<Finding> = Vec::new();
    let mut j: usize = 0;
    while j < locs.len()
        invariant
            j <= locs.len(),
            lsv == string_views(locs@),
            cite_locs@.len() == cite_paths@.len(),
            string_views(cite_locs@) == cs.map_values(|c: (Seq<char>, Seq<char>)| c.0),
            string_views(cite_paths@) == cs.map_values(|c: (Seq<char>, Seq<char>)| c.1),
            finding_views(findings@) == findings_by(lsv.take(j as int), |l: Seq<char>| promotion_findings(cs, l)),
        decreases locs.len() - j,
    {
        assert(lsv.take(j + 1).drop_last() =~= lsv.take(j as int));
        assert(lsv.take(j + 1).last() == locs@[j as int]@);
        let l = locs[j].as_str();
        // The records citing `l`, in citation order.
        assert(cs.map_values(|c: (Seq<char>, Seq<char>)| c.0).len() == cs.len());
        assert(string_views(cite_locs@).len() == cite_locs@.len());
        let mut cited: Vec<String> = Vec::new();
        let mut k: usize = 0;
        while k < cite_locs.len()
            invariant
                k <= cite_locs.len(),
                cite_locs@.len() == cite_paths@.len(),
                string_views(cite_locs@) == cs.map_values(|c: (Seq<char>, Seq<char>)| c.0),
                string_views(cite_paths@) == cs.map_values(|c: (Seq<char>, Seq<char>)| c.1),
                cs.len() == cite_locs@.len(),
                string_views(cited@) == citers(cs.take(k as int), l@),
            decreases cite_locs.len() - k,
        {
            assert(cs.take(k + 1).drop_last() =~= cs.take(k as int));
            assert(cs.take(k + 1).last() == cs[k as int]);
            assert(cs.map_values(|c: (Seq<char>, Seq<char>)| c.0)[k as int] == cite_locs@[k as int]@);
            assert(cs.map_values(|c: (Seq<char>, Seq<char>)| c.1)[k as int] == cite_paths@[k as int]@);
            if str_eq(cite_locs[k].as_str(), l) {
                let ghost before = string_views(cited@);
                cited.push(cite_paths[k].clone());
                assert(string_views(cited@) =~= before + seq![cs[k as int].1]);
            } else {
                assert(string_views(cited@) =~= string_views(cited@) + Seq::<Seq<char>>::empty());
            }
            k += 1;
        }
        assert(cs.take(cite_locs.len() as int) =~= cs);
        let cited_once = crate::order::distinct_paths(&cited);
        let ps = sort_paths(cited_once);
        if ps.len() >= 2 {
            let mut m = copy_str("locator '");
            append(&mut m, l);
            append(&mut m, "' is cited by ");
            let n = decimal_text(ps.len() as u64);
            append(&mut m, n.as_str());
            append(&mut m, " records (");
            let names = join_strings(&ps, ", ");
            assert(ps@.map_values(|p: String| p@) == string_views(ps@));
            append(&mut m, names.as_str());
            append(&mut m, ") -- consider promoting to a shared claim record");
            let ghost before = finding_views(findings@);
            findings.push(new_finding(
                RULE_EMBODIMENT_LOCATOR_PROMOTION_CANDIDATE,
                FindingSeverity::Warning,
                ps[0].as_str(),
                None,
                m,
            ));
            assert(finding_views(findings@) =~= before + seq![findings@.last()@]);
        } else {
            assert(finding_views(findings@) =~= finding_views(findings@) + Seq::<FindingView>::empty());
        }
        j += 1;
    }
    assert(lsv.take(locs.len() as int) =~= lsv);
    (finish_records(RULE_EMBODIMENT_LOCATOR_PROMOTION_CANDIDATE, PopulationUnit::Field, &outcomes, &paths), findings)
}

// ---------------------------------------------------------------------------
// Run-level and path-level rules
// ---------------------------------------------------------------------------

/// What `config.scope-matches-nothing` decides about another rule's
/// execution, and reports: only a population with candidates the
/// configuration could not reach.
pub open spec fn scope_verdict(path: Seq<char>, e: RuleExecution) -> (Outcome, Seq<FindingView>) {
    match e.population {
        None => (Outcome::Absent, Seq::empty()),
        Some(p) => if p@.out_of_scope == 0 {
            (Outcome::Examined, Seq::empty())
        } else {
            (
                Outcome::Examined,
                seq![
                    finding_of(
                        RULE_CONFIG_SCOPE_MATCHES_NOTHING@,
                        FindingSeverity::Warning,
                        path,
                        None,
                        "'"@ + e.rule@ + "' was handed "@ + decimal(p@.out_of_scope)
                            + " candidate(s) the configuration does not reach -- "@ + decimal(p@.out_of_scope)
                            + " of "@ + decimal(p@.eligible)
                            + " are outside what this repository declared, so the rule cannot apply to them however the records are edited"@,
                    ),
                ],
            )
        },
    }
}

/// The executions this rule judges: every other rule that ran.
pub open spec fn judged_executions(executed: Seq<RuleExecution>) -> Seq<RuleExecution>
    decreases executed.len(),
{
    if executed.len() == 0 {
        Seq::empty()
    } else {
        let e = executed.last();
        judged_executions(executed.drop_last()) + if e.rule@ != RULE_CONFIG_SCOPE_MATCHES_NOTHING@
            && e.status == RuleStatus::Ran {
            seq![e]
        } else {
            Seq::empty()
        }
    }
}

/// A declared rule handed candidates the configuration cannot reach: fires
/// on out-of-scope candidates, never on a merely empty result. Judges the
/// run, not the corpus, and excludes its own execution.
pub fn config_scope_matches_nothing(executed: &[RuleExecution], config_path: &str) -> (r: (
    RuleExecution,
    Vec<Finding>,
))
    ensures
        ran_on_config(
            r.0,
            RULE_CONFIG_SCOPE_MATCHES_NOTHING@,
            PopulationUnit::Rule,
            outcomes_by(judged_executions(executed@), |e: RuleExecution| scope_verdict(config_path@, e).0),
        ),
        finding_views(r.1@) == findings_by(
            judged_executions(executed@),
            |e: RuleExecution| scope_verdict(config_path@, e).1,
        ),
{
    let mut outcomes: Vec<Outcome> = Vec::new();
    let mut findings: Vec<Finding> = Vec::new();
    let mut i: usize = 0;
    while i < executed.len()
        invariant
            i <= executed.len(),
            outcomes@ == outcomes_by(
                judged_executions(executed@.take(i as int)),
                |e: RuleExecution| scope_verdict(config_path@, e).0,
            ),
            finding_views(findings@) == findings_by(
                judged_executions(executed@.take(i as int)),
                |e: RuleExecution| scope_verdict(config_path@, e).1,
            ),
        decreases executed.len() - i,
    {
        let ghost pre = judged_executions(executed@.take(i as int));
        assert(executed@.take(i + 1).drop_last() =~= executed@.take(i as int));
        assert(executed@.take(i + 1).last() == executed@[i as int]);
        let e = &executed[i];
        if !str_eq(e.rule.as_str(), RULE_CONFIG_SCOPE_MATCHES_NOTHING) && e.status == RuleStatus::Ran {
            let ghost post = judged_executions(executed@.take(i + 1));
            assert(post =~= pre.push(executed@[i as int]));
            assert(post.drop_last() =~= pre);
            match &e.population {
                None => {
                    outcomes.push(Outcome::Absent);
                    assert(finding_views(findings@) =~= finding_views(findings@) + Seq::<FindingView>::empty());
                },
                Some(p) => {
                    let oos = p.out_of_scope();
                    if oos == 0 {
                        assert(finding_views(findings@) =~= finding_views(findings@) + Seq::<FindingView>::empty());
                    } else {
                        let mut m = copy_str("'");
                        append(&mut m, e.rule.as_str());
                        append(&mut m, "' was handed ");
                        let a = decimal_text(oos as u64);
                        append(&mut m, a.as_str());
                        append(&mut m, " candidate(s) the configuration does not reach -- ");
                        append(&mut m, a.as_str());
                        append(&mut m, " of ");
                        let b = decimal_text(p.eligible() as u64);
                        append(&mut m, b.as_str());
                        append(
                            &mut m,
                            " are outside what this repository declared, so the rule cannot apply to them however the records are edited",
                        );
                        let ghost before = finding_views(findings@);
                        findings.push(new_finding(
                            RULE_CONFIG_SCOPE_MATCHES_NOTHING,
                            FindingSeverity::Warning,
                            config_path,
                            None,
                            m,
                        ));
                        assert(finding_views(findings@) =~= before + seq![findings@.last()@]);
                    }
                    outcomes.push(Outcome::Examined);
                },
            }
        } else {
            assert(judged_executions(executed@.take(i + 1)) =~= pre);
        }
        i += 1;
    }
    assert(executed@.take(executed.len() as int) =~= executed@);
    (finish_config(RULE_CONFIG_SCOPE_MATCHES_NOTHING, PopulationUnit::Rule, &outcomes), findings)
}

/// A path's components: its `/`-separated pieces, with empty and `.`
/// pieces dropped.
pub open spec fn path_components(pieces: Seq<Seq<char>>) -> Seq<Seq<char>>
    decreases pieces.len(),
{
    if pieces.len() == 0 {
        Seq::empty()
    } else {
        let p = pieces.last();
        path_components(pieces.drop_last()) + if p.len() == 0 || p == seq!['.'] {
            Seq::<Seq<char>>::empty()
        } else {
            seq![p]
        }
    }
}

pub open spec fn components(p: Seq<char>) -> Seq<Seq<char>> {
    path_components(split_char(p, '/'))
}

/// `path` lies at or below `dir`, component by component.
pub open spec fn below(path: Seq<char>, dir: Seq<char>) -> bool {
    let (a, b) = (components(path), components(dir));
    b.len() <= a.len() && a.take(b.len() as int) == b
}

/// `path` sits directly in `dir`.
pub open spec fn directly_in(path: Seq<char>, dir: Seq<char>) -> bool {
    let a = components(path);
    a.len() >= 1 && a.drop_last() == components(dir)
}

/// The components of a path.
pub fn components_of(p: &str) -> (r: Vec<Vec<char>>)
    ensures
        views(r@) == components(p@),
{
    components_exec(p)
}

fn components_exec(p: &str) -> (r: Vec<Vec<char>>)
    ensures
        views(r@) == components(p@),
{
    let cs = chars_of(p);
    let pieces = split_char_exec(&cs, '/');
    let ghost pv = views(pieces@);
    let mut r: Vec<Vec<char>> = Vec::new();
    let mut i: usize = 0;
    while i < pieces.len()
        invariant
            i <= pieces.len(),
            pv == views(pieces@),
            views(r@) == path_components(pv.take(i as int)),
        decreases pieces.len() - i,
    {
        assert(pv.take(i + 1).drop_last() =~= pv.take(i as int));
        assert(pv.take(i + 1).last() == pieces@[i as int]@);
        let piece = &pieces[i];
        let dot = vec!['.'];
        assert(dot@ =~= seq!['.']);
        if piece.len() == 0 || seq_eq(piece, &dot) {
            assert(views(r@) + Seq::<Seq<char>>::empty() =~= views(r@));
        } else {
            let ghost before = views(r@);
            r.push(pieces[i].clone());
            assert(views(r@) =~= before + seq![pv[i as int]]);
        }
        i += 1;
    }
    assert(pv.take(pieces.len() as int) =~= pv);
    r
}

fn components_prefix(a: &Vec<Vec<char>>, b: &Vec<Vec<char>>, direct: bool) -> (r: bool)
    ensures
        r == (if direct {
            views(a@).len() >= 1 && views(a@).drop_last() == views(b@)
        } else {
            views(b@).len() <= views(a@).len() && views(a@).take(views(b@).len() as int) == views(b@)
        }),
{
    let ghost av = views(a@);
    let ghost bv = views(b@);
    if direct {
        if a.len() == 0 || a.len() - 1 != b.len() {
            return false;
        }
    } else if b.len() > a.len() {
        return false;
    }
    let n = b.len();
    let mut k: usize = 0;
    while k < n
        invariant
            k <= n,
            n == b.len(),
            n <= a.len(),
            direct ==> a@.len() == n + 1,
            av == views(a@),
            bv == views(b@),
            av.len() == a@.len(),
            bv.len() == b@.len(),
            forall|j: int| 0 <= j < k ==> av[j] == bv[j],
        decreases n - k,
    {
        if !seq_eq(&a[k], &b[k]) {
            assert(av[k as int] != bv[k as int]);
            if direct {
                assert(av.drop_last()[k as int] != bv[k as int]);
            } else {
                assert(av.take(n as int)[k as int] != bv[k as int]);
            }
            return false;
        }
        k += 1;
    }
    if direct {
        assert(av.drop_last() =~= bv);
    } else {
        assert(av.take(n as int) =~= bv);
    }
    true
}

/// The declared directories.
pub open spec fn declared_dirs(config: Config) -> Seq<Seq<char>> {
    config.record_types@.map_values(|e: (String, RecordTypeConfig)| e.1.dir@)
}

/// A tracked path that looks like a record (a governed markdown filename)
/// and lies below some declared directory.
pub open spec fn record_shaped_below(dirs: Seq<Seq<char>>, p: Seq<char>) -> bool {
    &&& file_name(p) matches Some(n) && governed_filename(n)
    &&& exists|k: int| 0 <= k < dirs.len() && below(p, #[trigger] dirs[k])
}

pub open spec fn owned(dirs: Seq<Seq<char>>, p: Seq<char>) -> bool {
    exists|k: int| 0 <= k < dirs.len() && directly_in(p, #[trigger] dirs[k])
}

/// The eligible paths, in the order given.
pub open spec fn outside_candidates(dirs: Seq<Seq<char>>, paths: Seq<Seq<char>>) -> Seq<Seq<char>>
    decreases paths.len(),
{
    if paths.len() == 0 {
        Seq::empty()
    } else {
        outside_candidates(dirs, paths.drop_last()) + if record_shaped_below(dirs, paths.last()) {
            seq![paths.last()]
        } else {
            Seq::empty()
        }
    }
}

/// The eligible paths no declared directory directly holds.
pub open spec fn unowned(dirs: Seq<Seq<char>>, paths: Seq<Seq<char>>) -> Seq<Seq<char>>
    decreases paths.len(),
{
    if paths.len() == 0 {
        Seq::empty()
    } else {
        unowned(dirs, paths.drop_last()) + if owned(dirs, paths.last()) {
            Seq::empty()
        } else {
            seq![paths.last()]
        }
    }
}

pub open spec fn outside_finding(p: Seq<char>) -> Seq<FindingView> {
    seq![
        finding_of(
            RULE_TYPE_RECORD_OUTSIDE_DECLARED_DIR@,
            FindingSeverity::Warning,
            p,
            None,
            "sits below a declared record type's dir but not directly in it, so no type owns it and no rule examines it"@,
        ),
    ]
}

fn dir_test(dirs: &Vec<Vec<Vec<char>>>, p: &Vec<Vec<char>>, direct: bool) -> (r: bool)
    ensures
        r == exists|k: int| 0 <= k < dirs@.len() && (if direct {
            views(p@).len() >= 1 && views(p@).drop_last() == views(#[trigger] dirs@[k]@)
        } else {
            views(dirs@[k]@).len() <= views(p@).len() && views(p@).take(views(dirs@[k]@).len() as int) == views(dirs@[k]@)
        }),
{
    let mut k: usize = 0;
    while k < dirs.len()
        invariant
            k <= dirs.len(),
            forall|j: int| 0 <= j < k ==> !(if direct {
                views(p@).len() >= 1 && views(p@).drop_last() == views(#[trigger] dirs@[j]@)
            } else {
                views(dirs@[j]@).len() <= views(p@).len() && views(p@).take(views(dirs@[j]@).len() as int) == views(dirs@[j]@)
            }),
        decreases dirs.len() - k,
    {
        if components_prefix(p, &dirs[k], direct) {
            return true;
        }
        k += 1;
    }
    false
}

/// Whether `path` sits directly in `dir`.
pub(crate) fn is_directly_in(path: &str, dir: &str) -> (r: bool)
    ensures
        r == directly_in(path@, dir@),
{
    let pc = components_exec(path);
    let dc = components_exec(dir);
    let dirs = vec![dc];
    assert(dirs@.len() == 1);
    let r = dir_test(&dirs, &pc, true);
    proof {
        assert(views(dirs@[0]@) == components(dir@));
        if r {
            let k = choose|k: int|
                0 <= k < dirs@.len() && (views(pc@).len() >= 1 && views(pc@).drop_last() == views(dirs@[k]@));
            assert(k == 0);
        }
    }
    r
}

/// Whether `path` lies at or below `dir`, component by component.
pub(crate) fn is_below(path: &str, dir: &str) -> (r: bool)
    ensures
        r == below(path@, dir@),
{
    let pc = components_exec(path);
    let dc = components_exec(dir);
    let dirs = vec![dc];
    assert(dirs@.len() == 1);
    let r = dir_test(&dirs, &pc, false);
    proof {
        assert(views(dirs@[0]@) == components(dir@));
        if r {
            let k = choose|k: int|
                0 <= k < dirs@.len() && (views(dirs@[k]@).len() <= views(pc@).len() && views(pc@).take(
                    views(dirs@[k]@).len() as int,
                ) == views(dirs@[k]@));
            assert(k == 0);
        }
    }
    r
}

/// A record-shaped file below a declared `dir` but not directly in it: a
/// `dir` selects that directory, not its subtree, so no type owns the file
/// and it silently drops out of the corpus. `candidates` are the tracked
/// paths the caller considered. The population is every record-shaped path
/// below a declared directory; findings come in path order, component by
/// component.
pub fn type_record_outside_declared_dir(config: &Config, candidates: &[String]) -> (r: (
    RuleExecution,
    Vec<Finding>,
))
    ensures
        ran_on_config(
            r.0,
            RULE_TYPE_RECORD_OUTSIDE_DECLARED_DIR@,
            PopulationUnit::Path,
            outcomes_by(
                outside_candidates(declared_dirs(*config), string_views(candidates@)),
                |p: Seq<char>| Outcome::Examined,
            ),
        ),
        finding_views(r.1@) == findings_by(
            path_sorted(unowned(declared_dirs(*config), outside_candidates(declared_dirs(*config), string_views(candidates@)))),
            |p: Seq<char>| outside_finding(p),
        ),
{
    let ghost dirs = declared_dirs(*config);
    let mut dir_comps: Vec<Vec<Vec<char>>> = Vec::new();
    let mut i: usize = 0;
    while i < config.record_types.len()
        invariant
            i <= config.record_types.len(),
            dirs == declared_dirs(*config),
            dir_comps@.len() == i,
            forall|j: int| 0 <= j < i ==> views(#[trigger] dir_comps@[j]@) == components(dirs[j]),
        decreases config.record_types.len() - i,
    {
        assert(dirs[i as int] == config.record_types@[i as int].1.dir@);
        dir_comps.push(components_exec(config.record_types[i].1.dir.as_str()));
        i += 1;
    }
    let ghost cv = string_views(candidates@);
    let mut outcomes: Vec<Outcome> = Vec::new();
    let mut lost: Vec<String> = Vec::new();
    let mut k: usize = 0;
    while k < candidates.len()
        invariant
            k <= candidates.len(),
            cv == string_views(candidates@),
            dirs == declared_dirs(*config),
            dir_comps@.len() == dirs.len(),
            forall|j: int| 0 <= j < dirs.len() ==> views(#[trigger] dir_comps@[j]@) == components(dirs[j]),
            outcomes@ == outcomes_by(outside_candidates(dirs, cv.take(k as int)), |p: Seq<char>| Outcome::Examined),
            string_views(lost@) == unowned(dirs, outside_candidates(dirs, cv.take(k as int))),
        decreases candidates.len() - k,
    {
        let ghost pre = outside_candidates(dirs, cv.take(k as int));
        assert(cv.take(k + 1).drop_last() =~= cv.take(k as int));
        assert(cv.take(k + 1).last() == candidates@[k as int]@);
        let p = candidates[k].as_str();
        let pc = chars_of(p);
        let comps = components_exec(p);
        let shaped = match file_name_exec(&pc) {
            Some(n) => {
                let ns = string_of(&n);
                is_governed_record_filename(ns.as_str())
            },
            None => false,
        };
        let is_below = shaped && dir_test(&dir_comps, &comps, false);
        proof {
            assert(is_below == record_shaped_below(dirs, p@)) by {
                if shaped {
                    if exists|j: int| 0 <= j < dirs.len() && below(p@, #[trigger] dirs[j]) {
                        let j = choose|j: int| 0 <= j < dirs.len() && below(p@, #[trigger] dirs[j]);
                        assert(views(dir_comps@[j]@) == components(dirs[j]));
                    }
                    if is_below {
                        let j = choose|j: int| 0 <= j < dir_comps@.len() && (views(dir_comps@[j]@).len() <= views(comps@).len() && views(comps@).take(views(dir_comps@[j]@).len() as int) == views(dir_comps@[j]@));
                        assert(views(dir_comps@[j]@) == components(dirs[j]));
                        assert(below(p@, dirs[j]));
                    }
                }
            }
        }
        if is_below {
            let ghost post = outside_candidates(dirs, cv.take(k + 1));
            assert(post =~= pre.push(p@));
            assert(post.drop_last() =~= pre);
            outcomes.push(Outcome::Examined);
            let is_owned = dir_test(&dir_comps, &comps, true);
            assert(is_owned == owned(dirs, p@)) by {
                if exists|j: int| 0 <= j < dirs.len() && directly_in(p@, #[trigger] dirs[j]) {
                    let j = choose|j: int| 0 <= j < dirs.len() && directly_in(p@, #[trigger] dirs[j]);
                    assert(views(dir_comps@[j]@) == components(dirs[j]));
                }
                if is_owned {
                    let j = choose|j: int| 0 <= j < dir_comps@.len() && (views(comps@).len() >= 1 && views(comps@).drop_last() == views(dir_comps@[j]@));
                    assert(views(dir_comps@[j]@) == components(dirs[j]));
                    assert(directly_in(p@, dirs[j]));
                }
            }
            if !is_owned {
                let ghost before = string_views(lost@);
                lost.push(candidates[k].clone());
                assert(string_views(lost@) =~= before.push(p@));
                assert(unowned(dirs, post) == unowned(dirs, pre) + seq![p@]);
            } else {
                assert(unowned(dirs, post) =~= unowned(dirs, pre));
            }
        } else {
            assert(outside_candidates(dirs, cv.take(k + 1)) =~= pre);
        }
        k += 1;
    }
    assert(cv.take(candidates.len() as int) =~= cv);
    let sorted_lost = sort_paths(lost);
    let ghost sl = string_views(sorted_lost@);
    let mut findings: Vec<Finding> = Vec::new();
    let mut j: usize = 0;
    while j < sorted_lost.len()
        invariant
            j <= sorted_lost.len(),
            sl == string_views(sorted_lost@),
            finding_views(findings@) == findings_by(sl.take(j as int), |p: Seq<char>| outside_finding(p)),
        decreases sorted_lost.len() - j,
    {
        assert(sl.take(j + 1).drop_last() =~= sl.take(j as int));
        assert(sl.take(j + 1).last() == sorted_lost@[j as int]@);
        let ghost before = finding_views(findings@);
        findings.push(new_finding(
            RULE_TYPE_RECORD_OUTSIDE_DECLARED_DIR,
            FindingSeverity::Warning,
            sorted_lost[j].as_str(),
            None,
            copy_str(
                "sits below a declared record type's dir but not directly in it, so no type owns it and no rule examines it",
            ),
        ));
        assert(finding_views(findings@) =~= before + seq![findings@.last()@]);
        j += 1;
    }
    assert(sl.take(sorted_lost.len() as int) =~= sl);
    (finish_config(RULE_TYPE_RECORD_OUTSIDE_DECLARED_DIR, PopulationUnit::Path, &outcomes), findings)
}

// ---------------------------------------------------------------------------
// Identity
// ---------------------------------------------------------------------------

/// The message naming one identifier and every record claiming it, their
/// paths in order.
pub open spec fn collision_message(id: Seq<char>, claimants: Seq<Record>) -> Seq<char> {
    "identifier "@ + id + " is claimed by "@ + decimal(claimants.len()) + " records ("@ + join(
        sorted(claimants.map_values(|r: Record| r.path@)),
        ", "@,
    ) + ") -- a reference to it resolves to only one of them"@
}

/// One finding per claimant of a colliding identifier.
pub open spec fn collision_findings(c: (Seq<char>, Seq<Record>)) -> Seq<FindingView> {
    findings_by(
        c.1,
        |r: Record|
            seq![
                finding_of(
                    RULE_IDENTITY_COLLISION@,
                    FindingSeverity::Error,
                    r.path@,
                    None,
                    collision_message(c.0, c.1),
                ),
            ],
    )
}

/// Two records resolving to one identifier is a corpus error the index
/// cannot represent; every claimant is told. A record whose filename yields
/// no identifier is out of scope: it has no identity to collide.
pub fn identity_collision(records: &[Record], collisions: Vec<IdentifierCollision>) -> (r: (
    RuleExecution,
    Vec<Finding>,
))
    ensures
        ran_as(
            r.0,
            RULE_IDENTITY_COLLISION@,
            PopulationUnit::Record,
            outcomes_by(
                records@,
                |rec: Record| if rec.id_spec() is Some {
                    Outcome::Examined
                } else {
                    Outcome::OutOfScope
                },
            ),
            paths_by(records@, |rec: Record| rec.path@),
        ),
        finding_views(r.1@) == findings_by(
            collision_views(collisions@),
            |c: (Seq<char>, Seq<Record>)| collision_findings(c),
        ),
{
    let mut outcomes: Vec<Outcome> = Vec::new();
    let mut paths: Vec<String> = Vec::new();
    let mut i: usize = 0;
    while i < records.len()
        invariant
            i <= records.len(),
            outcomes@ == outcomes_by(
                records@.take(i as int),
                |rec: Record| if rec.id_spec() is Some {
                    Outcome::Examined
                } else {
                    Outcome::OutOfScope
                },
            ),
            string_views(paths@) == paths_by(records@.take(i as int), |rec: Record| rec.path@),
            outcomes@.len() == paths@.len(),
        decreases records.len() - i,
    {
        assert(records@.take(i + 1).drop_last() =~= records@.take(i as int));
        assert(records@.take(i + 1).last() == records@[i as int]);
        if records[i].id().is_some() {
            outcomes.push(Outcome::Examined);
        } else {
            outcomes.push(Outcome::OutOfScope);
        }
        let ghost before = string_views(paths@);
        paths.push(records[i].path.clone());
        assert(string_views(paths@) =~= before.push(records@[i as int].path@));
        i += 1;
    }
    assert(records@.take(records.len() as int) =~= records@);
    let ghost cv = collision_views(collisions@);
    let mut findings: Vec<Finding> = Vec::new();
    let mut j: usize = 0;
    while j < collisions.len()
        invariant
            j <= collisions.len(),
            cv == collision_views(collisions@),
            finding_views(findings@) == findings_by(cv.take(j as int), |c: (Seq<char>, Seq<Record>)| collision_findings(c)),
        decreases collisions.len() - j,
    {
        assert(cv.take(j + 1).drop_last() =~= cv.take(j as int));
        assert(cv.take(j + 1).last() == cv[j as int]);
        let (id, claimants) = (&collisions[j].0, &collisions[j].1);
        let ghost cl = claimants@.map_values(|r: &Record| *r);
        assert(cv[j as int] == (id@, cl));
        let mut names: Vec<String> = Vec::new();
        let mut k: usize = 0;
        while k < claimants.len()
            invariant
                k <= claimants.len(),
                cl == claimants@.map_values(|r: &Record| *r),
                string_views(names@) == cl.take(k as int).map_values(|r: Record| r.path@),
            decreases claimants.len() - k,
        {
            let ghost before = string_views(names@);
            names.push(claimants[k].path.clone());
            assert(string_views(names@) =~= before.push(cl[k as int].path@));
            assert(cl.take(k + 1).map_values(|r: Record| r.path@) =~= cl.take(k as int).map_values(|r: Record| r.path@).push(cl[k as int].path@));
            k += 1;
        }
        assert(cl.take(claimants.len() as int) =~= cl);
        let names = sort_strings(names);
        let mut m = copy_str("identifier ");
        append(&mut m, id.as_str());
        append(&mut m, " is claimed by ");
        let n = decimal_text(claimants.len() as u64);
        append(&mut m, n.as_str());
        append(&mut m, " records (");
        let joined = join_strings(&names, ", ");
        assert(names@.map_values(|p: String| p@) == string_views(names@));
        append(&mut m, joined.as_str());
        append(&mut m, ") -- a reference to it resolves to only one of them");
        assert(m@ == collision_message(id@, cl));
        let mut per: Vec<Finding> = Vec::new();
        let mut k: usize = 0;
        while k < claimants.len()
            invariant
                k <= claimants.len(),
                cl == claimants@.map_values(|r: &Record| *r),
                m@ == collision_message(id@, cl),
                finding_views(per@) == findings_by(
                    cl.take(k as int),
                    |r: Record|
                        seq![
                            finding_of(
                                RULE_IDENTITY_COLLISION@,
                                FindingSeverity::Error,
                                r.path@,
                                None,
                                collision_message(id@, cl),
                            ),
                        ],
                ),
            decreases claimants.len() - k,
        {
            assert(cl.take(k + 1).drop_last() =~= cl.take(k as int));
            assert(cl.take(k + 1).last() == cl[k as int]);
            let ghost before = finding_views(per@);
            per.push(new_finding(RULE_IDENTITY_COLLISION, FindingSeverity::Error, claimants[k].path.as_str(), None, m.clone()));
            assert(finding_views(per@) =~= before + seq![per@.last()@]);
            k += 1;
        }
        assert(cl.take(claimants.len() as int) =~= cl);
        let ghost before = finding_views(findings@);
        let ghost add = finding_views(per@);
        findings.append(&mut per);
        assert(finding_views(findings@) =~= before + add);
        j += 1;
    }
    assert(cv.take(collisions.len() as int) =~= cv);
    (finish_records(RULE_IDENTITY_COLLISION, PopulationUnit::Record, &outcomes, &paths), findings)
}

// ---------------------------------------------------------------------------
// Body rules: read the record's full text
// ---------------------------------------------------------------------------

/// The full text the caller read for the record at `path`: the first entry
/// for that path, however either is spelled.
pub open spec fn text_of(full_text: Seq<(String, String)>, path: Seq<char>) -> Option<Seq<char>>
    decreases full_text.len(),
{
    if full_text.len() == 0 {
        None
    } else if components(full_text[0].0@) == components(path) {
        Some(full_text[0].1@)
    } else {
        text_of(full_text.drop_first(), path)
    }
}

pub open spec fn title_finding(r: Record, line: Option<usize>, message: Seq<char>) -> Seq<FindingView> {
    seq![finding_of(RULE_FILENAME_TITLE_CONSISTENCY@, FindingSeverity::Error, r.path@, line, message)]
}

/// What `filename.title-consistency` decides about `r`, and reports: the
/// number its filename claims against the number its H1 title claims,
/// compared by value.
pub open spec fn title_verdict(full_text: Seq<(String, String)>, r: Record) -> (Outcome, Seq<FindingView>) {
    match filename_number_spec(r.path@, r.type_prefix@) {
        None => (Outcome::OutOfScope, Seq::empty()),
        Some(num) => match text_of(full_text, r.path@) {
            None => (Outcome::Absent, Seq::empty()),
            Some(content) => if !parses_u64(num) {
                (
                    Outcome::Examined,
                    title_finding(r, None, "filename number "@ + num + " is too large to compare"@),
                )
            } else {
                let fnum = decimal_value(num);
                match first_h1(content, r.header.region) {
                    None => (
                        Outcome::Examined,
                        title_finding(r, None, "no H1 title found to check against the filename's number"@),
                    ),
                    Some((line, text)) => match title_number(text) {
                        None => (
                            Outcome::Examined,
                            title_finding(
                                r,
                                Some(line as usize),
                                "H1 title '"@ + elided(text)
                                    + "' carries no number to check against the filename's number "@ + decimal(fnum),
                            ),
                        ),
                        Some(n) => if n != fnum {
                            (
                                Outcome::Examined,
                                title_finding(
                                    r,
                                    Some(line as usize),
                                    "filename claims number "@ + decimal(fnum) + ", but the H1 title '"@ + elided(text)
                                        + "' claims "@ + decimal(n),
                                ),
                            )
                        } else {
                            (Outcome::Examined, Seq::empty())
                        },
                    },
                }
            },
        },
    }
}

fn text_for<'a>(full_text: &'a Vec<(String, String)>, path: &str) -> (r: Option<&'a String>)
    ensures
        match r {
            Some(t) => text_of(full_text@, path@) == Some(t@),
            None => text_of(full_text@, path@) is None,
        },
{
    let mut i: usize = 0;
    assert(full_text@.skip(0) =~= full_text@);
    while i < full_text.len()
        invariant
            i <= full_text.len(),
            text_of(full_text@, path@) == text_of(full_text@.skip(i as int), path@),
        decreases full_text.len() - i,
    {
        assert(full_text@.skip(i as int)[0] == full_text@[i as int]);
        if crate::order::same_path(full_text[i].0.as_str(), path) {
            return Some(&full_text[i].1);
        }
        assert(full_text@.skip(i as int).drop_first() =~= full_text@.skip(i + 1));
        i += 1;
    }
    None
}

fn judge_title(full_text: &Vec<(String, String)>, r: &Record) -> (v: (Outcome, Vec<Finding>))
    ensures
        v.0 == title_verdict(full_text@, *r).0,
        finding_views(v.1@) == title_verdict(full_text@, *r).1,
{
    let num = match r.filename_number() {
        Some(n) => n,
        None => return (Outcome::OutOfScope, Vec::new()),
    };
    let content = match text_for(full_text, r.path.as_str()) {
        Some(c) => c,
        None => return (Outcome::Absent, Vec::new()),
    };
    let fnum = match parse_u64(&num) {
        Some(v) => v,
        None => {
            let mut m = copy_str("filename number ");
            let ns = string_of(&num);
            append(&mut m, ns.as_str());
            append(&mut m, " is too large to compare");
            return (
                Outcome::Examined,
                one(new_finding(RULE_FILENAME_TITLE_CONSISTENCY, FindingSeverity::Error, r.path.as_str(), None, m)),
            );
        },
    };
    match find_first_h1(content.as_str(), r.header.region) {
        None => {
            let m = copy_str("no H1 title found to check against the filename's number");
            (
                Outcome::Examined,
                one(new_finding(RULE_FILENAME_TITLE_CONSISTENCY, FindingSeverity::Error, r.path.as_str(), None, m)),
            )
        },
        Some(h1) => {
            let shown = string_of(&elide(&h1.text));
            let fs = decimal_text(fnum);
            match h1.number {
                None => {
                    let mut m = copy_str("H1 title '");
                    append(&mut m, shown.as_str());
                    append(&mut m, "' carries no number to check against the filename's number ");
                    append(&mut m, fs.as_str());
                    (
                        Outcome::Examined,
                        one(new_finding(
                            RULE_FILENAME_TITLE_CONSISTENCY,
                            FindingSeverity::Error,
                            r.path.as_str(),
                            Some(h1.line),
                            m,
                        )),
                    )
                },
                Some(n) => {
                    if n != fnum {
                        let mut m = copy_str("filename claims number ");
                        append(&mut m, fs.as_str());
                        append(&mut m, ", but the H1 title '");
                        append(&mut m, shown.as_str());
                        append(&mut m, "' claims ");
                        let nn = decimal_text(n);
                        append(&mut m, nn.as_str());
                        (
                            Outcome::Examined,
                            one(new_finding(
                                RULE_FILENAME_TITLE_CONSISTENCY,
                                FindingSeverity::Error,
                                r.path.as_str(),
                                Some(h1.line),
                                m,
                            )),
                        )
                    } else {
                        (Outcome::Examined, Vec::new())
                    }
                },
            }
        },
    }
}

/// A filename's number must match its document's H1 title: a rename that
/// updates one and not the other is otherwise silent. `full_text` is each
/// record's text as the caller read it. A record whose filename carries no
/// number is out of scope; one whose text was not read is not judged.
pub fn filename_title_consistency(records: &[Record], full_text: &Vec<(String, String)>) -> (r: (
    RuleExecution,
    Vec<Finding>,
))
    ensures
        ran_as(
            r.0,
            RULE_FILENAME_TITLE_CONSISTENCY@,
            PopulationUnit::Record,
            outcomes_by(records@, |rec: Record| title_verdict(full_text@, rec).0),
            paths_by(records@, |rec: Record| rec.path@),
        ),
        finding_views(r.1@) == findings_by(records@, |rec: Record| title_verdict(full_text@, rec).1),
{
    let mut outcomes: Vec<Outcome> = Vec::new();
    let mut paths: Vec<String> = Vec::new();
    let mut findings: Vec<Finding> = Vec::new();
    let mut i: usize = 0;
    while i < records.len()
        invariant
            i <= records.len(),
            outcomes@ == outcomes_by(records@.take(i as int), |rec: Record| title_verdict(full_text@, rec).0),
            string_views(paths@) == paths_by(records@.take(i as int), |rec: Record| rec.path@),
            finding_views(findings@) == findings_by(records@.take(i as int), |rec: Record| title_verdict(full_text@, rec).1),
            outcomes@.len() == paths@.len(),
        decreases records.len() - i,
    {
        assert(records@.take(i + 1).drop_last() =~= records@.take(i as int));
        assert(records@.take(i + 1).last() == records@[i as int]);
        let (o, mut fs) = judge_title(full_text, &records[i]);
        outcomes.push(o);
        let ghost before_paths = string_views(paths@);
        paths.push(records[i].path.clone());
        assert(string_views(paths@) =~= before_paths.push(records@[i as int].path@));
        let ghost before = finding_views(findings@);
        let ghost add = finding_views(fs@);
        findings.append(&mut fs);
        assert(finding_views(findings@) =~= before + add);
        i += 1;
    }
    assert(records@.take(records.len() as int) =~= records@);
    (finish_records(RULE_FILENAME_TITLE_CONSISTENCY, PopulationUnit::Record, &outcomes, &paths), findings)
}

/// A change class that names one: `substantive` or `structural`, once bold
/// markers and whitespace are removed.
pub open spec fn real_class(class: Seq<char>) -> bool {
    let c = trim(trim_char(class, '*'));
    c == "substantive"@ || c == "structural"@
}

/// One finding per revision-log entry without a real change class.
pub open spec fn revision_findings(r: Record, es: Seq<EntryV>) -> Seq<FindingView>
    decreases es.len(),
{
    if es.len() == 0 {
        Seq::empty()
    } else {
        let e = es.last();
        revision_findings(r, es.drop_last()) + if real_class(e.1) {
            Seq::empty()
        } else {
            seq![
                finding_of(
                    RULE_REVISION_LOG_CHANGE_CLASS_REQUIRED@,
                    FindingSeverity::Error,
                    r.path@,
                    Some(e.2 as usize),
                    "revision log entry dated "@ + e.0 + " has no real change_class (found "@ + debug_text(e.1)
                        + ") -- expected \"substantive\" or \"structural\""@,
                ),
            ]
        }
    }
}

/// What `revision-log.change-class-required` decides about `r`, and
/// reports: a record with no revision log section is in the population and
/// not judged, never counted as compliant.
pub open spec fn revision_verdict(full_text: Seq<(String, String)>, r: Record) -> (Outcome, Seq<FindingView>) {
    match text_of(full_text, r.path@) {
        None => (Outcome::Absent, Seq::empty()),
        Some(content) => match revision_entries(content) {
            None => (Outcome::Absent, Seq::empty()),
            Some(es) => (Outcome::Examined, revision_findings(r, es)),
        },
    }
}

fn judge_revision(full_text: &Vec<(String, String)>, r: &Record) -> (v: (Outcome, Vec<Finding>))
    ensures
        v.0 == revision_verdict(full_text@, *r).0,
        finding_views(v.1@) == revision_verdict(full_text@, *r).1,
{
    let content = match text_for(full_text, r.path.as_str()) {
        Some(c) => c,
        None => return (Outcome::Absent, Vec::new()),
    };
    let entries = match find_revision_log_entries(content.as_str()) {
        Some(es) => es,
        None => return (Outcome::Absent, Vec::new()),
    };
    let ghost ev = entry_views(entries@);
    let sub = chars_of("substantive");
    let stru = chars_of("structural");
    let mut out: Vec<Finding> = Vec::new();
    let mut i: usize = 0;
    while i < entries.len()
        invariant
            i <= entries.len(),
            ev == entry_views(entries@),
            sub@ == "substantive"@,
            stru@ == "structural"@,
            finding_views(out@) == revision_findings(*r, ev.take(i as int)),
        decreases entries.len() - i,
    {
        assert(ev.take(i + 1).drop_last() =~= ev.take(i as int));
        assert(ev.take(i + 1).last() == ev[i as int]);
        let e = &entries[i];
        assert(ev[i as int] == (e.date@, e.change_class@, e.line as int));
        let cc = chars_of(e.change_class.as_str());
        let stars = crate::document::trim_char_exec(&cc, '*');
        let c = trim_vec(&stars);
        if !(seq_eq(&c, &sub) || seq_eq(&c, &stru)) {
            let mut m = copy_str("revision log entry dated ");
            append(&mut m, e.date.as_str());
            append(&mut m, " has no real change_class (found ");
            let d = debug_str(e.change_class.as_str());
            append(&mut m, d.as_str());
            append(&mut m, ") -- expected \"substantive\" or \"structural\"");
            let ghost before = finding_views(out@);
            out.push(new_finding(
                RULE_REVISION_LOG_CHANGE_CLASS_REQUIRED,
                FindingSeverity::Error,
                r.path.as_str(),
                Some(e.line),
                m,
            ));
            assert(finding_views(out@) =~= before + seq![out@.last()@]);
        } else {
            assert(finding_views(out@) =~= finding_views(out@) + Seq::<FindingView>::empty());
        }
        i += 1;
    }
    assert(ev.take(entries.len() as int) =~= ev);
    (Outcome::Examined, out)
}

/// Every existing revision-log entry names a real change class: a blank or
/// `—` class is a substantive change folded silently into "no class
/// recorded". Every record is in the population; one with no revision log
/// section is not judged, so the gap stays visible.
pub fn revision_log_change_class(records: &[Record], full_text: &Vec<(String, String)>) -> (r: (
    RuleExecution,
    Vec<Finding>,
))
    ensures
        ran_as(
            r.0,
            RULE_REVISION_LOG_CHANGE_CLASS_REQUIRED@,
            PopulationUnit::Record,
            outcomes_by(records@, |rec: Record| revision_verdict(full_text@, rec).0),
            paths_by(records@, |rec: Record| rec.path@),
        ),
        finding_views(r.1@) == findings_by(records@, |rec: Record| revision_verdict(full_text@, rec).1),
{
    let mut outcomes: Vec<Outcome> = Vec::new();
    let mut paths: Vec<String> = Vec::new();
    let mut findings: Vec<Finding> = Vec::new();
    let mut i: usize = 0;
    while i < records.len()
        invariant
            i <= records.len(),
            outcomes@ == outcomes_by(records@.take(i as int), |rec: Record| revision_verdict(full_text@, rec).0),
            string_views(paths@) == paths_by(records@.take(i as int), |rec: Record| rec.path@),
            finding_views(findings@) == findings_by(records@.take(i as int), |rec: Record| revision_verdict(full_text@, rec).1),
            outcomes@.len() == paths@.len(),
        decreases records.len() - i,
    {
        assert(records@.take(i + 1).drop_last() =~= records@.take(i as int));
        assert(records@.take(i + 1).last() == records@[i as int]);
        let (o, mut fs) = judge_revision(full_text, &records[i]);
        outcomes.push(o);
        let ghost before_paths = string_views(paths@);
        paths.push(records[i].path.clone());
        assert(string_views(paths@) =~= before_paths.push(records@[i as int].path@));
        let ghost before = finding_views(findings@);
        let ghost add = finding_views(fs@);
        findings.append(&mut fs);
        assert(finding_views(findings@) =~= before + add);
        i += 1;
    }
    assert(records@.take(records.len() as int) =~= records@);
    (finish_records(RULE_REVISION_LOG_CHANGE_CLASS_REQUIRED, PopulationUnit::Record, &outcomes, &paths), findings)
}

// ---------------------------------------------------------------------------
// Claims made outside the corpus
// ---------------------------------------------------------------------------

/// A word that announces a closing claim: `closes`, `fixes` or `resolves`,
/// once edge punctuation is trimmed and the word lower-cased.
pub open spec fn closing_verb(token: Seq<char>) -> bool {
    let w = unicode_lower(crate::references::trim_where(token, |c: char| !crate::text::is_alnum_char(c)));
    w == "closes"@ || w == "fixes"@ || w == "resolves"@
}

/// A token is a closing verb exactly when, with edge punctuation trimmed
/// and lower-cased, it is `closes`, `fixes` or `resolves`; each of the
/// three counts on its own.
pub proof fn lemma_closing_verbs(token: Seq<char>)
    ensures
        ({
            let w = unicode_lower(crate::references::trim_where(token, |c: char| !crate::text::is_alnum_char(c)));
            &&& w == "closes"@ ==> closing_verb(token)
            &&& w == "fixes"@ ==> closing_verb(token)
            &&& w == "resolves"@ ==> closing_verb(token)
            &&& closing_verb(token) ==> w == "closes"@ || w == "fixes"@ || w == "resolves"@
        }),
{
}

/// A closing verb followed by a reference claims that reference: the
/// claims read from the verb begin with the references the next token
/// names. A line with no closing verb claims nothing.
pub proof fn lemma_claims_follow_the_verb(ts: Seq<Seq<char>>, i: int)
    ensures
        0 <= i && i + 1 < ts.len() && closing_verb(ts[i]) ==> claims_from(ts, i).take(scanned(ts[i + 1]).len() as int)
            == scanned(ts[i + 1]),
        (forall|k: int| i <= k < ts.len() ==> !closing_verb(#[trigger] ts[k])) ==> claims_from(ts, i).len() == 0,
    decreases ts.len() - i,
{
    if 0 <= i && i + 1 < ts.len() && closing_verb(ts[i]) {
        let n = ts[i + 1];
        if scanned(n).len() > 0 {
            let rest = run_from(ts, i + 2, ends_with(n, seq![',']), true);
            assert(claims_from(ts, i) == run_from(ts, i + 1, true, false));
            assert(run_from(ts, i + 1, true, false) == scanned(n) + rest);
            assert((scanned(n) + rest).take(scanned(n).len() as int) =~= scanned(n));
        } else {
            assert(scanned(n).len() == 0);
            assert(claims_from(ts, i).take(0) =~= scanned(n));
        }
    }
    if (forall|k: int| i <= k < ts.len() ==> !closing_verb(#[trigger] ts[k])) && 0 <= i < ts.len() {
        assert(!closing_verb(ts[i]));
        lemma_claims_follow_the_verb(ts, i + 1);
        assert forall|k: int| i + 1 <= k < ts.len() implies !closing_verb(#[trigger] ts[k]) by {}
    }
}

/// The references a line claims to close, reading whitespace tokens from
/// `i`: each run of references immediately following a closing verb.
pub open spec fn claims_from(ts: Seq<Seq<char>>, i: int) -> Seq<Seq<char>>
    decreases ts.len() - i, 0int,
{
    if i < 0 || i >= ts.len() {
        Seq::empty()
    } else if !closing_verb(ts[i]) {
        claims_from(ts, i + 1)
    } else {
        run_from(ts, i + 1, true, false)
    }
}

/// The run after a verb, from token `j`: `and` bridges two references once
/// one has been seen; a token not ending in `,` closes the run unless a
/// bridge follows; the first token that is neither ends it.
pub open spec fn run_from(ts: Seq<Seq<char>>, j: int, expecting: bool, seen: bool) -> Seq<Seq<char>>
    decreases ts.len() - j, 1int,
{
    if j < 0 || j >= ts.len() {
        Seq::empty()
    } else {
        let next = ts[j];
        if seen && eq_ignore_case(next, "and"@) {
            run_from(ts, j + 1, true, seen)
        } else if !expecting {
            claims_from(ts, j)
        } else if scanned(next).len() == 0 {
            claims_from(ts, j)
        } else {
            scanned(next) + run_from(ts, j + 1, ends_with(next, seq![',']), true)
        }
    }
}

/// The references a line of prose claims to close.
pub open spec fn claimed(line: Seq<char>) -> Seq<Seq<char>> {
    claims_from(words(line), 0)
}

fn closing_verb_exec(token: &[char]) -> (b: bool)
    ensures
        b == closing_verb(token@),
{
    let mut a: usize = 0;
    let ghost p = |c: char| !crate::text::is_alnum_char(c);
    assert(token@.skip(0) =~= token@);
    while a < token.len() && !crate::text::is_alnum(token[a])
        invariant
            a <= token.len(),
            p == |c: char| !crate::text::is_alnum_char(c),
            crate::references::lead_where(token@, p) == a + crate::references::lead_where(token@.skip(a as int), p),
        decreases token.len() - a,
    {
        assert(token@.skip(a as int).drop_first() =~= token@.skip(a + 1));
        a += 1;
    }
    let ghost rest = token@.skip(a as int);
    let mut b: usize = token.len();
    assert(rest.take((b - a) as int) =~= rest);
    while b > a && !crate::text::is_alnum(token[b - 1])
        invariant
            a <= b <= token.len(),
            rest == token@.skip(a as int),
            p == |c: char| !crate::text::is_alnum_char(c),
            crate::references::trim_end_where(rest, p) == crate::references::trim_end_where(rest.take((b - a) as int), p),
        decreases b,
    {
        assert(rest.take((b - a) as int).drop_last() =~= rest.take((b - 1 - a) as int));
        b -= 1;
    }
    let w = crate::text::slice_vec(token, a, b);
    assert(w@ =~= rest.take((b - a) as int));
    let ws = string_of(&w);
    let lw = to_lowercase(ws.as_str());
    str_eq(lw.as_str(), "closes") || str_eq(lw.as_str(), "fixes") || str_eq(lw.as_str(), "resolves")
}

/// The references a line of prose claims to close: the run immediately
/// following a closing verb, ending at the first token that is neither a
/// reference nor a separator. Deliberately narrow: a missed claim is
/// recoverable, a false error on a correct sentence is not.
pub fn claimed_closed(line: &[char]) -> (r: Vec<Vec<char>>)
    ensures
        views(r@) == claimed(line@),
{
    let ts = words_exec(line);
    let ghost tv = views(ts@);
    let and_word = chars_of("and");
    let comma = vec![','];
    assert(comma@ =~= seq![',']);
    let mut out: Vec<Vec<char>> = Vec::new();
    let mut i: usize = 0;
    while i < ts.len()
        invariant
            i <= ts.len(),
            tv == views(ts@),
            and_word@ == "and"@,
            comma@ == seq![','],
            claims_from(tv, 0) == views(out@) + claims_from(tv, i as int),
        decreases ts.len() - i,
    {
        assert(tv[i as int] == ts@[i as int]@);
        if !closing_verb_exec(&ts[i]) {
            i += 1;
            continue;
        }
        i += 1;
        let ghost start = i;
        let mut expecting = true;
        let mut seen = false;
        let mut stop = false;
        while i < ts.len() && !stop
            invariant
                start <= i <= ts.len(),
                start >= 1,
                tv == views(ts@),
                and_word@ == "and"@,
                comma@ == seq![','],
                !stop ==> claims_from(tv, 0) == views(out@) + run_from(tv, i as int, expecting, seen),
                stop ==> claims_from(tv, 0) == views(out@) + claims_from(tv, i as int),
            decreases ts.len() - i, if stop { 0int } else { 1int },
        {
            let next = &ts[i];
            assert(tv[i as int] == next@);
            if seen && crate::text::seq_eq_ignore_case(next, &and_word) {
                i += 1;
                expecting = true;
            } else if !expecting {
                stop = true;
            } else {
                let refs = scan_references(next);
                if refs.len() == 0 {
                    stop = true;
                } else {
                    expecting = ends_with_exec(next, &comma);
                    seen = true;
                    let ghost before = views(out@);
                    let mut more = refs;
                    out.append(&mut more);
                    assert(views(out@) =~= before + scanned(next@));
                    i += 1;
                }
            }
        }
        if !stop {
            assert(run_from(tv, i as int, expecting, seen) =~= Seq::<Seq<char>>::empty());
            assert(claims_from(tv, i as int) =~= Seq::<Seq<char>>::empty());
        }
    }
    assert(views(out@) + Seq::<Seq<char>>::empty() =~= views(out@));
    out
}

/// A claim occurrence: `(claim file, 1-indexed line, reference as written)`.
pub type ClaimV = (Seq<char>, int, Seq<char>);

/// The claim occurrences of the lines of one file.
pub open spec fn line_claims(path: Seq<char>, ls: Seq<Seq<char>>) -> Seq<ClaimV>
    decreases ls.len(),
{
    if ls.len() == 0 {
        Seq::empty()
    } else {
        let n = ls.len() as int;
        line_claims(path, ls.drop_last()) + claimed(ls.last()).map_values(|r: Seq<char>| (path, n, r))
    }
}

/// Every claim occurrence, files in order.
pub open spec fn claim_occurrences(claims: Seq<(String, String)>) -> Seq<ClaimV>
    decreases claims.len(),
{
    if claims.len() == 0 {
        Seq::empty()
    } else {
        claim_occurrences(claims.drop_last()) + line_claims(claims.last().0@, lines(claims.last().1@))
    }
}

/// What `claim.status-agreement` reports about one occurrence: the claimed
/// record's status, read from the field its own type uses for it, is not
/// one the repository declared closed.
pub open spec fn claim_findings(config: Config, targets: Seq<Record>, closed: Seq<Seq<char>>, o: ClaimV) -> Seq<
    FindingView,
> {
    match resolve(targets, normalize(o.2)) {
        None => Seq::empty(),
        Some(t) => {
            let sf = relation_name(config, t.record_type@, RelationRole::Status);
            match cross_value(config, t, sf) {
                None => Seq::empty(),
                Some(status) => if closed.contains(status) {
                    Seq::empty()
                } else {
                    seq![
                        finding_of(
                            RULE_CLAIM_STATUS_AGREEMENT@,
                            FindingSeverity::Error,
                            o.0,
                            Some(o.1 as usize),
                            "claims to close "@ + o.2 + ", but "@ + o.2 + " has "@ + sf + " "@ + status,
                        ),
                    ]
                },
            }
        },
    }
}

/// A file outside the corpus claiming a record is closed while the record
/// says otherwise. `claims` are the claim files as `(path, text)`;
/// `closed_statuses` is declared, never inferred. One candidate per distinct
/// claimed identifier; a claim naming no record is not judged. Findings are
/// per occurrence: each place a claim is written is its own thing to fix.
pub fn claim_status_agreement(
    claims: &[(String, String)],
    closed_statuses: &[String],
    config: &Config,
    index: &RecordIndex,
) -> (r: (RuleExecution, Vec<Finding>))
    ensures
        ran_on_config(
            r.0,
            RULE_CLAIM_STATUS_AGREEMENT@,
            PopulationUnit::Claim,
            outcomes_by(
                dedup(claim_occurrences(claims@).map_values(|o: ClaimV| normalize(o.2))),
                |k: Seq<char>| if resolve(index.targets(), k) is Some {
                    Outcome::Examined
                } else {
                    Outcome::Absent
                },
            ),
        ),
        finding_views(r.1@) == findings_by(
            claim_occurrences(claims@),
            |o: ClaimV| claim_findings(*config, index.targets(), string_views(closed_statuses@), o),
        ),
{
    // Every occurrence, in file and line order.
    let mut occ_paths: Vec<String> = Vec::new();
    let mut occ_lines: Vec<usize> = Vec::new();
    let mut occ_refs: Vec<Vec<char>> = Vec::new();
    let mut f: usize = 0;
    while f < claims.len()
        invariant
            f <= claims.len(),
            occ_paths@.len() == occ_refs@.len(),
            occ_lines@.len() == occ_refs@.len(),
            forall|k: int| 0 <= k < occ_refs@.len() ==> #[trigger] claim_occurrences(claims@.take(f as int))[k] == (
                occ_paths@[k]@,
                occ_lines@[k] as int,
                occ_refs@[k]@,
            ),
            claim_occurrences(claims@.take(f as int)).len() == occ_refs@.len(),
        decreases claims.len() - f,
    {
        assert(claims@.take(f + 1).drop_last() =~= claims@.take(f as int));
        assert(claims@.take(f + 1).last() == claims@[f as int]);
        let ghost pre = claim_occurrences(claims@.take(f as int));
        let path = &claims[f].0;
        let text = chars_of(claims[f].1.as_str());
        let ls = lines_exec(&text);
        let ghost lv = views(ls@);
        let base = occ_refs.len();
        let mut l: usize = 0;
        while l < ls.len()
            invariant
                l <= ls.len(),
                lv == views(ls@),
                lv == lines(claims@[f as int].1@),
                path@ == claims@[f as int].0@,
                base == pre.len(),
                occ_paths@.len() == occ_refs@.len(),
                occ_lines@.len() == occ_refs@.len(),
                occ_refs@.len() == base + line_claims(path@, lv.take(l as int)).len(),
                forall|k: int| 0 <= k < base ==> #[trigger] pre[k] == (occ_paths@[k]@, occ_lines@[k] as int, occ_refs@[k]@),
                forall|k: int| 0 <= k < line_claims(path@, lv.take(l as int)).len() ==> #[trigger] line_claims(path@, lv.take(l as int))[k] == (
                    occ_paths@[base + k]@,
                    occ_lines@[base + k] as int,
                    occ_refs@[base + k]@,
                ),
            decreases ls.len() - l,
        {
            let ghost lc = line_claims(path@, lv.take(l as int));
            assert(lv.take(l + 1).drop_last() =~= lv.take(l as int));
            assert(lv.take(l + 1).last() == ls@[l as int]@);
            let refs = claimed_closed(&ls[l]);
            let ghost rv = views(refs@);
            let ghost added = rv.map_values(|r: Seq<char>| (path@, l + 1, r));
            assert(line_claims(path@, lv.take(l + 1)) == lc + added);
            let mut q: usize = 0;
            while q < refs.len()
                invariant
                    l < ls.len(),
                    path@ == claims@[f as int].0@,
                    q <= refs.len(),
                    rv == views(refs@),
                    base == pre.len(),
                    occ_paths@.len() == occ_refs@.len(),
                    occ_lines@.len() == occ_refs@.len(),
                    occ_refs@.len() == base + lc.len() + q,
                    forall|k: int| 0 <= k < base ==> #[trigger] pre[k] == (occ_paths@[k]@, occ_lines@[k] as int, occ_refs@[k]@),
                    forall|k: int| 0 <= k < lc.len() + q ==> #[trigger] (lc + added)[k] == (
                        occ_paths@[base + k]@,
                        occ_lines@[base + k] as int,
                        occ_refs@[base + k]@,
                    ),
                    forall|k: int| 0 <= k < lc.len() ==> (lc + added)[k] == lc[k],
                    forall|k: int| 0 <= k < rv.len() ==> (lc + added)[lc.len() + k] == (path@, l + 1, rv[k]),
                decreases refs.len() - q,
            {
                assert(rv[q as int] == refs@[q as int]@);
                occ_paths.push(path.clone());
                occ_lines.push(l + 1);
                occ_refs.push(crate::text::slice_vec(&refs[q], 0, refs[q].len()));
                assert(refs@[q as int]@.subrange(0, refs@[q as int]@.len() as int) =~= refs@[q as int]@);
                assert((lc + added)[lc.len() + q] == (path@, l + 1, rv[q as int]));
                q += 1;
            }
            l += 1;
        }
        assert(lv.take(ls.len() as int) =~= lv);
        let ghost lcs = line_claims(path@, lv);
        assert(claim_occurrences(claims@.take(f + 1)) == pre + lcs);
        assert forall|k: int| 0 <= k < occ_refs@.len() implies #[trigger] claim_occurrences(claims@.take(f + 1))[k] == (
            occ_paths@[k]@,
            occ_lines@[k] as int,
            occ_refs@[k]@,
        ) by {
            if k < base {
                assert((pre + lcs)[k] == pre[k]);
            } else {
                assert((pre + lcs)[k] == lcs[k - base]);
            }
        }
        f += 1;
    }
    assert(claims@.take(claims.len() as int) =~= claims@);
    let ghost occ = claim_occurrences(claims@);
    // One candidate per distinct normalized identifier.
    let mut keys: Vec<Vec<char>> = Vec::new();
    let mut outcomes: Vec<Outcome> = Vec::new();
    let mut k: usize = 0;
    while k < occ_refs.len()
        invariant
            k <= occ_refs.len(),
            occ.len() == occ_refs@.len(),
            occ_paths@.len() == occ_refs@.len(),
            occ_lines@.len() == occ_refs@.len(),
            forall|m: int| 0 <= m < occ_refs@.len() ==> #[trigger] occ[m] == (occ_paths@[m]@, occ_lines@[m] as int, occ_refs@[m]@),
            views(keys@) == dedup(occ.take(k as int).map_values(|o: ClaimV| normalize(o.2))),
            outcomes@ == outcomes_by(
                views(keys@),
                |key: Seq<char>| if resolve(index.targets(), key) is Some {
                    Outcome::Examined
                } else {
                    Outcome::Absent
                },
            ),
        decreases occ_refs.len() - k,
    {
        let ghost pre_keys = occ.take(k as int).map_values(|o: ClaimV| normalize(o.2));
        assert(occ.take(k + 1).map_values(|o: ClaimV| normalize(o.2)) =~= pre_keys.push(normalize(occ_refs@[k as int]@)));
        let key = normalize_exec(&occ_refs[k]);
        assert(occ[k as int].2 == occ_refs@[k as int]@);
        assert(occ.take(k + 1).map_values(|o: ClaimV| normalize(o.2)).drop_last() =~= pre_keys);
        let mut seen = false;
        let mut m: usize = 0;
        while m < keys.len()
            invariant
                m <= keys.len(),
                seen == views(keys@).take(m as int).contains(key@),
            decreases keys.len() - m,
        {
            assert(views(keys@).take(m + 1) =~= views(keys@).take(m as int).push(keys@[m as int]@));
            assert(views(keys@)[m as int] == keys@[m as int]@);
            if seq_eq(&keys[m], &key) {
                seen = true;
                assert(views(keys@).take(m + 1)[m as int] == key@);
            }
            m += 1;
        }
        assert(views(keys@).take(keys.len() as int) =~= views(keys@));
        if !seen {
            let ghost before = views(keys@);
            let o = if index.contains_key(&key) {
                Outcome::Examined
            } else {
                Outcome::Absent
            };
            keys.push(key);
            outcomes.push(o);
            assert(views(keys@) =~= before.push(normalize(occ_refs@[k as int]@)));
            assert(views(keys@).drop_last() =~= before);
        }
        k += 1;
    }
    assert(occ.take(occ_refs.len() as int) =~= occ);
    // Findings, per occurrence.
    let mut findings: Vec<Finding> = Vec::new();
    let mut j: usize = 0;
    while j < occ_refs.len()
        invariant
            j <= occ_refs.len(),
            occ.len() == occ_refs@.len(),
            occ_paths@.len() == occ_refs@.len(),
            occ_lines@.len() == occ_refs@.len(),
            forall|m: int| 0 <= m < occ_refs@.len() ==> #[trigger] occ[m] == (occ_paths@[m]@, occ_lines@[m] as int, occ_refs@[m]@),
            finding_views(findings@) == findings_by(
                occ.take(j as int),
                |o: ClaimV| claim_findings(*config, index.targets(), string_views(closed_statuses@), o),
            ),
        decreases occ_refs.len() - j,
    {
        assert(occ.take(j + 1).drop_last() =~= occ.take(j as int));
        assert(occ.take(j + 1).last() == occ[j as int]);
        let key = normalize_exec(&occ_refs[j]);
        let ghost before = finding_views(findings@);
        match index.get(&key) {
            None => {
                assert(before + Seq::<FindingView>::empty() =~= before);
            },
            Some(t) => {
                let sf = relation_field_name(config, t.record_type.as_str(), RelationRole::Status);
                match declared_cross_record_value(config, t, sf) {
                    None => {
                        assert(before + Seq::<FindingView>::empty() =~= before);
                    },
                    Some(status) => {
                        let mut listed = false;
                        let mut c: usize = 0;
                        while c < closed_statuses.len()
                            invariant
                                c <= closed_statuses.len(),
                                listed == string_views(closed_statuses@).take(c as int).contains(status@),
                            decreases closed_statuses.len() - c,
                        {
                            assert(string_views(closed_statuses@).take(c + 1) =~= string_views(closed_statuses@).take(
                                c as int,
                            ).push(closed_statuses@[c as int]@));
                            assert(string_views(closed_statuses@)[c as int] == closed_statuses@[c as int]@);
                            if str_eq(closed_statuses[c].as_str(), status) {
                                listed = true;
                                assert(string_views(closed_statuses@).take(c + 1)[c as int] == status@);
                            }
                            c += 1;
                        }
                        assert(string_views(closed_statuses@).take(closed_statuses.len() as int) =~= string_views(
                            closed_statuses@,
                        ));
                        if listed {
                            assert(before + Seq::<FindingView>::empty() =~= before);
                        } else {
                            let reference = string_of(&occ_refs[j]);
                            let mut m = copy_str("claims to close ");
                            append(&mut m, reference.as_str());
                            append(&mut m, ", but ");
                            append(&mut m, reference.as_str());
                            append(&mut m, " has ");
                            append(&mut m, sf);
                            append(&mut m, " ");
                            append(&mut m, status);
                            findings.push(new_finding(
                                RULE_CLAIM_STATUS_AGREEMENT,
                                FindingSeverity::Error,
                                occ_paths[j].as_str(),
                                Some(occ_lines[j]),
                                m,
                            ));
                            assert(finding_views(findings@) =~= before + seq![findings@.last()@]);
                        }
                    },
                }
            },
        }
        j += 1;
    }
    assert(occ.take(occ_refs.len() as int) =~= occ);
    (finish_config(RULE_CLAIM_STATUS_AGREEMENT, PopulationUnit::Claim, &outcomes), findings)
}
} // verus!
