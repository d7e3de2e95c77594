//! The repository's declared configuration: record types, their directories
//! and declared fields, and which rules run at what level. Turning the YAML
//! text into these values is the caller's business; what a loaded
//! configuration must satisfy before any rule runs is decided here.
use crate::header::{HeaderLayout, HeaderShape};
use crate::order::{sort_strings, sorted};
use crate::report::{contains_string, string_views};
use crate::rules::{all_rules, rule_ids, RULE_CLAIM_STATUS_AGREEMENT, RULE_NARRATIVE_FIELD_STALE, RULE_POINTER_TARGET_STATUS};
use crate::text::{append, chars_of, copy_str, decimal, decimal_text, join, join_strings, str_eq, trim, trim_vec};
use vstd::prelude::*;

verus! {

/// The only schema version this build understands. A config declaring any
/// other value is refused, not read on a best-effort basis.
pub const CURRENT_SCHEMA_VERSION: u32 = 2;

/// What a repository declared about one rule's severity.
#[derive(Debug, Clone, Copy, PartialEq, Eq, Structural)]
pub enum RuleLevel {
    Off,
    Warn,
    Error,
}

pub open spec fn level_text(level: RuleLevel) -> Seq<char> {
    match level {
        RuleLevel::Off => "off"@,
        RuleLevel::Warn => "warn"@,
        RuleLevel::Error => "error"@,
    }
}

impl RuleLevel {
    /// The level as the config file writes it.
    pub fn as_str(self) -> (r: &'static str)
        ensures
            r@ == level_text(self),
    {
        match self {
            RuleLevel::Off => "off",
            RuleLevel::Warn => "warn",
            RuleLevel::Error => "error",
        }
    }
}

/// What a repository declared about one rule: a level, plus the options the
/// few option-taking rules read.
#[derive(Debug, Clone, PartialEq, Eq)]
pub struct RuleSetting {
    pub level: RuleLevel,
    /// Statuses a reference's target may not be in (`pointer.target-status`).
    pub not_in: Option<Vec<String>>,
    /// Path prefixes to scan for claims about records (`claim.status-agreement`).
    pub claim_paths: Option<Vec<String>>,
    /// Statuses that make a record legitimately claimable as closed
    /// (`claim.status-agreement`).
    pub closed_statuses: Option<Vec<String>>,
    /// Statuses that make a reference's target terminal
    /// (`narrative-field.stale`).
    pub terminal_statuses: Option<Vec<String>>,
}

/// A relationship a rule reads from a record, independent of which field
/// name a given type writes it under.
#[derive(Debug, Clone, Copy, PartialEq, Eq, Structural)]
pub enum RelationRole {
    Status,
    Supersession,
    EmbodimentState,
    EmbodimentLocator,
}

pub open spec fn all_roles() -> Seq<RelationRole> {
    seq![
        RelationRole::Status,
        RelationRole::Supersession,
        RelationRole::EmbodimentState,
        RelationRole::EmbodimentLocator,
    ]
}

/// The field name a type uses for a role when it declares no override.
pub open spec fn default_field(role: RelationRole) -> Seq<char> {
    match role {
        RelationRole::Status => "Status"@,
        RelationRole::Supersession => "Supersedes / Superseded-by"@,
        RelationRole::EmbodimentState => "Embodiment"@,
        RelationRole::EmbodimentLocator => "Realized-by"@,
    }
}

/// The key under `relation_fields:` that overrides a role.
pub open spec fn role_key(role: RelationRole) -> Seq<char> {
    match role {
        RelationRole::Status => "status"@,
        RelationRole::Supersession => "supersession"@,
        RelationRole::EmbodimentState => "embodiment_state"@,
        RelationRole::EmbodimentLocator => "embodiment_locator"@,
    }
}

impl RelationRole {
    /// Every role, in declaration order.
    pub fn all() -> (r: [RelationRole; 4])
        ensures
            r@ == all_roles(),
    {
        let r = [
            RelationRole::Status,
            RelationRole::Supersession,
            RelationRole::EmbodimentState,
            RelationRole::EmbodimentLocator,
        ];
        assert(r@ =~= all_roles());
        r
    }

    /// The field name used when a type declares no override for this role.
    pub fn default_field_name(self) -> (r: &'static str)
        ensures
            r@ == default_field(self),
    {
        match self {
            RelationRole::Status => "Status",
            RelationRole::Supersession => "Supersedes / Superseded-by",
            RelationRole::EmbodimentState => "Embodiment",
            RelationRole::EmbodimentLocator => "Realized-by",
        }
    }

    /// The key naming this role under `relation_fields:`.
    pub fn config_key(self) -> (r: &'static str)
        ensures
            r@ == role_key(self),
    {
        match self {
            RelationRole::Status => "status",
            RelationRole::Supersession => "supersession",
            RelationRole::EmbodimentState => "embodiment_state",
            RelationRole::EmbodimentLocator => "embodiment_locator",
        }
    }
}

/// Per-type overrides of the field name each role is read from.
#[derive(Debug, Clone, PartialEq, Eq)]
pub struct RelationFields {
    pub status: Option<String>,
    pub supersession: Option<String>,
    pub embodiment_state: Option<String>,
    pub embodiment_locator: Option<String>,
}

impl Default for RelationFields {
    /// No override for any role.
    fn default() -> (r: Self)
        ensures
            r.status is None,
            r.supersession is None,
            r.embodiment_state is None,
            r.embodiment_locator is None,
    {
        RelationFields { status: None, supersession: None, embodiment_state: None, embodiment_locator: None }
    }
}

impl RelationFields {
    pub open spec fn override_of(&self, role: RelationRole) -> Option<String> {
        match role {
            RelationRole::Status => self.status,
            RelationRole::Supersession => self.supersession,
            RelationRole::EmbodimentState => self.embodiment_state,
            RelationRole::EmbodimentLocator => self.embodiment_locator,
        }
    }

    /// The override declared for `role`, if any.
    pub fn get(&self, role: RelationRole) -> (r: Option<&String>)
        ensures
            match r {
                Some(s) => self.override_of(role) == Some(*s),
                None => self.override_of(role) is None,
            },
    {
        match role {
            RelationRole::Status => self.status.as_ref(),
            RelationRole::Supersession => self.supersession.as_ref(),
            RelationRole::EmbodimentState => self.embodiment_state.as_ref(),
            RelationRole::EmbodimentLocator => self.embodiment_locator.as_ref(),
        }
    }
}

/// What a repository declares about one record type.
#[derive(Debug, Clone)]
pub struct RecordTypeConfig {
    pub dir: String,
    pub required_fields: Vec<String>,
    /// Declared per type, never sniffed. The default is the blockquote shape.
    pub header_shape: HeaderShape,
    /// The filename/ID prefix for this type; `None` means the type name
    /// upper-cased.
    pub prefix: Option<String>,
    /// The expected line layout of a blockquote header; `None` leaves the
    /// axis unchecked for this type.
    pub header_layout: Option<HeaderLayout>,
    /// The fields the type may carry beyond `required_fields`; `None` leaves
    /// the type's field set unchecked.
    pub known_fields: Option<Vec<String>>,
    /// Clean, comma-separated reference fields.
    pub pointer_fields: Option<Vec<String>>,
    /// Prose-tolerant reference fields.
    pub narrative_fields: Option<Vec<String>>,
    /// The spec document covering this type's schema, if any.
    pub spec: Option<String>,
    /// Per-role field-name overrides.
    pub relation_fields: Option<RelationFields>,
}

/// The strings of an optional list, or none.
pub open spec fn list_or_empty(v: Option<Vec<String>>) -> Seq<Seq<char>> {
    match v {
        Some(l) => string_views(l@),
        None => Seq::empty(),
    }
}

/// Each string once, in first-seen order.
pub open spec fn dedup(s: Seq<Seq<char>>) -> Seq<Seq<char>>
    decreases s.len(),
{
    if s.len() == 0 {
        Seq::empty()
    } else {
        let d = dedup(s.drop_last());
        if d.contains(s.last()) {
            d
        } else {
            d.push(s.last())
        }
    }
}

pub proof fn lemma_dedup_contains(s: Seq<Seq<char>>, x: Seq<char>)
    ensures
        dedup(s).contains(x) == s.contains(x),
    decreases s.len(),
{
    if s.len() > 0 {
        lemma_dedup_contains(s.drop_last(), x);
        if s.drop_last().contains(x) {
            let k = choose|k: int| 0 <= k < s.drop_last().len() && s.drop_last()[k] == x;
            assert(s[k] == x);
        }
        if s.contains(x) {
            let k = choose|k: int| 0 <= k < s.len() && s[k] == x;
            if k < s.len() - 1 {
                assert(s.drop_last()[k] == x);
            }
        }
        let d = dedup(s.drop_last());
        if !d.contains(s.last()) {
            assert(d.push(s.last())[d.len() as int] == s.last());
            if d.contains(x) {
                let k = choose|k: int| 0 <= k < d.len() && d[k] == x;
                assert(d.push(s.last())[k] == x);
            }
            if d.push(s.last()).contains(x) {
                let k = choose|k: int| 0 <= k < d.len() + 1 && d.push(s.last())[k] == x;
                if k < d.len() {
                    assert(d[k] == x);
                }
            }
        }
    }
}

/// `dedup` keeps each string once.
pub proof fn lemma_dedup_distinct(s: Seq<Seq<char>>)
    ensures
        dedup(s).no_duplicates(),
    decreases s.len(),
{
    if s.len() > 0 {
        lemma_dedup_distinct(s.drop_last());
        let d = dedup(s.drop_last());
        if !d.contains(s.last()) {
            assert forall|i: int, j: int| 0 <= i < d.len() + 1 && 0 <= j < d.len() + 1 && i != j implies d.push(
                s.last(),
            )[i] != d.push(s.last())[j] by {
                if i == d.len() {
                    assert(d[j] != s.last());
                } else if j == d.len() {
                    assert(d[i] != s.last());
                }
            }
        }
    }
}

impl RecordTypeConfig {
    /// Whether the type declares `name`, in `required_fields` or
    /// `known_fields`. Compared exactly.
    pub open spec fn declares_spec(&self, name: Seq<char>) -> bool {
        string_views(self.required_fields@).contains(name) || list_or_empty(
            self.known_fields,
        ).contains(name)
    }

    /// The declared field set, each name once: `required_fields` then
    /// `known_fields`.
    pub open spec fn declared_spec(&self) -> Seq<Seq<char>> {
        dedup(string_views(self.required_fields@) + list_or_empty(self.known_fields))
    }

    /// The field name this type reads `role` from.
    pub open spec fn relation_field_spec(&self, role: RelationRole) -> Seq<char> {
        match self.relation_fields {
            Some(rf) => match rf.override_of(role) {
                Some(s) => s@,
                None => default_field(role),
            },
            None => default_field(role),
        }
    }

    /// Whether the type declares `name` (`required_fields` ∪ `known_fields`).
    pub fn declares(&self, name: &str) -> (r: bool)
        ensures
            r == self.declares_spec(name@),
    {
        if contains_string(&self.required_fields, name) {
            return true;
        }
        match &self.known_fields {
            Some(k) => contains_string(k, name),
            None => false,
        }
    }

    /// Every field the type declares (`required_fields` ∪ `known_fields`),
    /// each once, in declaration order.
    pub fn declared_fields(&self) -> (r: Vec<String>)
        ensures
            string_views(r@) == self.declared_spec(),
    {
        let ghost all = string_views(self.required_fields@) + list_or_empty(self.known_fields);
        let mut r: Vec<String> = Vec::new();
        let mut i: usize = 0;
        let n = self.required_fields.len();
        while i < n
            invariant
                n == self.required_fields.len(),
                i <= n,
                all == string_views(self.required_fields@) + list_or_empty(self.known_fields),
                string_views(r@) == dedup(all.take(i as int)),
            decreases n - i,
        {
            assert(all.take(i + 1).drop_last() =~= all.take(i as int));
            assert(all[i as int] == self.required_fields@[i as int]@);
            if !contains_string(&r, self.required_fields[i].as_str()) {
                let ghost before = string_views(r@);
                r.push(self.required_fields[i].clone());
                assert(string_views(r@) =~= before.push(all[i as int]));
            }
            i += 1;
        }
        match &self.known_fields {
            Some(k) => {
                let mut j: usize = 0;
                while j < k.len()
                    invariant
                        n == self.required_fields.len(),
                        self.known_fields == Some(*k),
                        j <= k.len(),
                        all == string_views(self.required_fields@) + string_views(k@),
                        string_views(r@) == dedup(all.take(n + j)),
                    decreases k.len() - j,
                {
                    assert(all.take(n + j + 1).drop_last() =~= all.take(n + j));
                    assert(all[n + j] == k@[j as int]@);
                    if !contains_string(&r, k[j].as_str()) {
                        let ghost before = string_views(r@);
                        r.push(k[j].clone());
                        assert(string_views(r@) =~= before.push(all[n + j]));
                    }
                    j += 1;
                }
                assert(all.take(n + j) =~= all);
            },
            None => {
                assert(all.take(n as int) =~= all);
            },
        }
        r
    }

    /// The field name this type reads `role` from: its declared override,
    /// else the role's default.
    pub fn relation_field(&self, role: RelationRole) -> (r: &str)
        ensures
            r@ == self.relation_field_spec(role),
    {
        match &self.relation_fields {
            Some(rf) => match rf.get(role) {
                Some(s) => s.as_str(),
                None => role.default_field_name(),
            },
            None => role.default_field_name(),
        }
    }
}

/// A loaded configuration. Record types and rule settings are keyed by name,
/// in the order the configuration declares them; a configuration that
/// `validate` accepts names each once (`names_distinct`).
#[derive(Debug, Clone)]
pub struct Config {
    pub schema_version: u32,
    pub record_types: Vec<(String, RecordTypeConfig)>,
    /// Every rule a repository turned on, and at what level. Empty means no
    /// rule runs: governance is declared, never inherited.
    pub rules: Vec<(String, RuleSetting)>,
}

/// The first entry keyed `key`.
pub open spec fn first_key<V>(entries: Seq<(String, V)>, key: Seq<char>) -> Option<int>
    decreases entries.len(),
{
    if entries.len() == 0 {
        None
    } else {
        match first_key(entries.drop_last(), key) {
            Some(i) => Some(i),
            None => if entries.last().0@ == key {
                Some(entries.len() - 1)
            } else {
                None
            },
        }
    }
}

pub proof fn lemma_first_key<V>(entries: Seq<(String, V)>, key: Seq<char>)
    ensures
        first_key(entries, key) matches Some(i) ==> 0 <= i < entries.len() && entries[i].0@ == key
            && forall|k: int| 0 <= k < i ==> entries[k].0@ != key,
        first_key(entries, key) is None ==> forall|k: int|
            0 <= k < entries.len() ==> entries[k].0@ != key,
    decreases entries.len(),
{
    if entries.len() > 0 {
        lemma_first_key(entries.drop_last(), key);
        assert forall|k: int| 0 <= k < entries.len() - 1 implies entries.drop_last()[k]
            == entries[k] by {}
    }
}

/// The value keyed `key`, if any.
pub open spec fn lookup<V>(entries: Seq<(String, V)>, key: Seq<char>) -> Option<V> {
    match first_key(entries, key) {
        Some(i) => Some(entries[i].1),
        None => None,
    }
}

fn find_key<V>(entries: &Vec<(String, V)>, key: &str) -> (r: Option<usize>)
    ensures
        match r {
            Some(i) => i < entries@.len() && first_key(entries@, key@) == Some(i as int),
            None => first_key(entries@, key@) is None,
        },
{
    let mut i: usize = 0;
    while i < entries.len()
        invariant
            i <= entries.len(),
            forall|k: int| 0 <= k < i ==> entries@[k].0@ != key@,
        decreases entries.len() - i,
    {
        if str_eq(entries[i].0.as_str(), key) {
            proof {
                lemma_first_key(entries@, key@);
            }
            return Some(i);
        }
        i += 1;
    }
    proof {
        lemma_first_key(entries@, key@);
    }
    None
}

impl Config {
    /// The configuration of the record type named `name`.
    pub fn type_config(&self, name: &str) -> (r: Option<&RecordTypeConfig>)
        ensures
            match r {
                Some(t) => lookup(self.record_types@, name@) == Some(*t),
                None => lookup(self.record_types@, name@) is None,
            },
    {
        match find_key(&self.record_types, name) {
            Some(i) => Some(&self.record_types[i].1),
            None => None,
        }
    }

    /// What the configuration declares about the rule `id`.
    pub fn rule_setting(&self, id: &str) -> (r: Option<&RuleSetting>)
        ensures
            match r {
                Some(s) => lookup(self.rules@, id@) == Some(*s),
                None => lookup(self.rules@, id@) is None,
            },
    {
        match find_key(&self.rules, id) {
            Some(i) => Some(&self.rules[i].1),
            None => None,
        }
    }
}


/// Why a configuration cannot be used.
#[derive(Debug, Clone)]
pub enum ConfigError {
    /// The YAML text did not read as a configuration; the reader's message.
    Parse(String),
    UnrecognizedSchemaVersion { found: u32 },
    /// A rule name this build does not ship, with every name it does, sorted.
    UnknownRule { found: String, known: Vec<String> },
    OptionNotApplicable { rule: String, option: String },
    OptionRequired { rule: String, option: String, consequence: String },
    /// A name declared twice under one section (`record_types` or `rules`):
    /// each names one entry, so a second declaration would silently stand
    /// for the first or be ignored.
    DuplicateName { section: String, name: String },
}

pub enum ConfigErrorView {
    Parse(Seq<char>),
    UnrecognizedSchemaVersion { found: u32 },
    UnknownRule { found: Seq<char>, known: Seq<Seq<char>> },
    OptionNotApplicable { rule: Seq<char>, option: Seq<char> },
    OptionRequired { rule: Seq<char>, option: Seq<char>, consequence: Seq<char> },
    DuplicateName { section: Seq<char>, name: Seq<char> },
}

impl View for ConfigError {
    type V = ConfigErrorView;

    open spec fn view(&self) -> ConfigErrorView {
        match self {
            ConfigError::Parse(m) => ConfigErrorView::Parse(m@),
            ConfigError::UnrecognizedSchemaVersion { found } => ConfigErrorView::UnrecognizedSchemaVersion {
                found: *found,
            },
            ConfigError::UnknownRule { found, known } => ConfigErrorView::UnknownRule {
                found: found@,
                known: string_views(known@),
            },
            ConfigError::OptionNotApplicable { rule, option } => ConfigErrorView::OptionNotApplicable {
                rule: rule@,
                option: option@,
            },
            ConfigError::OptionRequired { rule, option, consequence } => ConfigErrorView::OptionRequired {
                rule: rule@,
                option: option@,
                consequence: consequence@,
            },
            ConfigError::DuplicateName { section, name } => ConfigErrorView::DuplicateName {
                section: section@,
                name: name@,
            },
        }
    }
}

/// The error's message, as the command line prints it.
pub open spec fn error_message(e: ConfigErrorView) -> Seq<char> {
    match e {
        ConfigErrorView::Parse(m) => "could not parse config: "@ + m,
        ConfigErrorView::UnrecognizedSchemaVersion { found } => "unrecognized schema_version "@
            + decimal(found as nat) + " -- this build of urzua understands version "@ + decimal(
            CURRENT_SCHEMA_VERSION as nat,
        ),
        ConfigErrorView::UnknownRule { found, known } => "unknown rule '"@ + found
            + "' under `rules:` -- this build ships: "@ + join(known, ", "@),
        ConfigErrorView::OptionNotApplicable { rule, option } => "rule '"@ + rule
            + "' does not take the option '"@ + option + "'"@,
        ConfigErrorView::OptionRequired { rule, option, consequence } => "rule '"@ + rule
            + "' requires the option '"@ + option + "' -- without it the rule "@ + consequence,
        ConfigErrorView::DuplicateName { section, name } => "'"@ + name + "' is declared more than once under `"@
            + section + ":`"@,
    }
}

impl ConfigError {
    /// The error's message.
    pub fn message(&self) -> (r: String)
        ensures
            r@ == error_message(self@),
    {
        match self {
            ConfigError::Parse(m) => {
                let mut r = copy_str("could not parse config: ");
                append(&mut r, m.as_str());
                r
            },
            ConfigError::UnrecognizedSchemaVersion { found } => {
                let mut r = copy_str("unrecognized schema_version ");
                let f = decimal_text(*found as u64);
                append(&mut r, f.as_str());
                append(&mut r, " -- this build of urzua understands version ");
                let v = decimal_text(CURRENT_SCHEMA_VERSION as u64);
                append(&mut r, v.as_str());
                r
            },
            ConfigError::UnknownRule { found, known } => {
                let mut r = copy_str("unknown rule '");
                append(&mut r, found.as_str());
                append(&mut r, "' under `rules:` -- this build ships: ");
                let j = join_strings(known, ", ");
                assert(known@.map_values(|p: String| p@) == string_views(known@));
                append(&mut r, j.as_str());
                r
            },
            ConfigError::OptionNotApplicable { rule, option } => {
                let mut r = copy_str("rule '");
                append(&mut r, rule.as_str());
                append(&mut r, "' does not take the option '");
                append(&mut r, option.as_str());
                append(&mut r, "'");
                r
            },
            ConfigError::OptionRequired { rule, option, consequence } => {
                let mut r = copy_str("rule '");
                append(&mut r, rule.as_str());
                append(&mut r, "' requires the option '");
                append(&mut r, option.as_str());
                append(&mut r, "' -- without it the rule ");
                append(&mut r, consequence.as_str());
                r
            },
            ConfigError::DuplicateName { section, name } => {
                let mut r = copy_str("'");
                append(&mut r, name.as_str());
                append(&mut r, "' is declared more than once under `");
                append(&mut r, section.as_str());
                append(&mut r, ":`");
                r
            },
        }
    }
}

/// Rules that cannot be declared without their options.
pub open spec fn requires_options(rule: Seq<char>) -> bool {
    rule == RULE_CLAIM_STATUS_AGREEMENT@ || rule == RULE_POINTER_TARGET_STATUS@
}

/// Whether `rule` cannot be declared without its options.
pub fn rule_requires_options(rule: &str) -> (r: bool)
    ensures
        r == requires_options(rule@),
{
    str_eq(rule, RULE_CLAIM_STATUS_AGREEMENT) || str_eq(rule, RULE_POINTER_TARGET_STATUS)
}

/// An option list that declares something: non-empty, and no entry blank.
pub open spec fn declared_list(v: Option<Vec<String>>) -> bool {
    match v {
        Some(l) => l@.len() > 0 && forall|i: int| 0 <= i < l@.len() ==> trim(#[trigger] l@[i]@).len() > 0,
        None => false,
    }
}

/// What is wrong with one rule's options, if anything: an option on a rule
/// that does not read it, then an option an enabled rule cannot run without.
pub open spec fn setting_error(name: Seq<char>, s: RuleSetting) -> Option<ConfigErrorView> {
    let target = RULE_POINTER_TARGET_STATUS@;
    let claim = RULE_CLAIM_STATUS_AGREEMENT@;
    let on = s.level != RuleLevel::Off;
    if s.not_in is Some && name != target {
        Some(ConfigErrorView::OptionNotApplicable { rule: name, option: "not_in"@ })
    } else if s.claim_paths is Some && name != claim {
        Some(ConfigErrorView::OptionNotApplicable { rule: name, option: "claim_paths"@ })
    } else if s.closed_statuses is Some && name != claim {
        Some(ConfigErrorView::OptionNotApplicable { rule: name, option: "closed_statuses"@ })
    } else if s.terminal_statuses is Some && name != RULE_NARRATIVE_FIELD_STALE@ {
        Some(ConfigErrorView::OptionNotApplicable { rule: name, option: "terminal_statuses"@ })
    } else if name == claim && on && !declared_list(s.claim_paths) {
        Some(
            ConfigErrorView::OptionRequired {
                rule: name,
                option: "claim_paths"@,
                consequence: "scans nothing and can never report"@,
            },
        )
    } else if name == claim && on && !declared_list(s.closed_statuses) {
        Some(
            ConfigErrorView::OptionRequired {
                rule: name,
                option: "closed_statuses"@,
                consequence: "treats every claim as a violation, including correct ones"@,
            },
        )
    } else if name == target && on && !declared_list(s.not_in) {
        Some(
            ConfigErrorView::OptionRequired {
                rule: name,
                option: "not_in"@,
                consequence: "examines every reference and can never report"@,
            },
        )
    } else {
        None
    }
}

/// A declined rule never reads its options, so it never needs them: a rule
/// declared `off` is refused only for an option that belongs to another
/// rule. An option-taking rule that is on, in turn, needs every option it
/// reads declared and free of blank entries.
pub proof fn lemma_declined_rule_needs_no_options(name: Seq<char>, s: RuleSetting)
    ensures
        s.level == RuleLevel::Off && (s.not_in is Some ==> name == RULE_POINTER_TARGET_STATUS@) && (
        s.claim_paths is Some ==> name == RULE_CLAIM_STATUS_AGREEMENT@) && (s.closed_statuses is Some ==> name
            == RULE_CLAIM_STATUS_AGREEMENT@) && (s.terminal_statuses is Some ==> name == RULE_NARRATIVE_FIELD_STALE@)
            ==> setting_error(name, s) is None,
        s.level != RuleLevel::Off && name == RULE_POINTER_TARGET_STATUS@ && !declared_list(s.not_in)
            ==> setting_error(name, s) is Some,
        s.level != RuleLevel::Off && name == RULE_CLAIM_STATUS_AGREEMENT@ && (!declared_list(s.claim_paths)
            || !declared_list(s.closed_statuses)) ==> setting_error(name, s) is Some,
{
}

/// The first rule name this build does not ship.
pub open spec fn first_unknown_rule(rules: Seq<(String, RuleSetting)>) -> Option<Seq<char>>
    decreases rules.len(),
{
    if rules.len() == 0 {
        None
    } else if !rule_ids().contains(rules[0].0@) {
        Some(rules[0].0@)
    } else {
        first_unknown_rule(rules.drop_first())
    }
}

/// The first rule whose options are wrong, in declaration order.
pub open spec fn first_setting_error(rules: Seq<(String, RuleSetting)>) -> Option<ConfigErrorView>
    decreases rules.len(),
{
    if rules.len() == 0 {
        None
    } else {
        match setting_error(rules[0].0@, rules[0].1) {
            Some(e) => Some(e),
            None => first_setting_error(rules.drop_first()),
        }
    }
}

/// The names of a section's entries, in declaration order.
pub open spec fn entry_names<V>(entries: Seq<(String, V)>) -> Seq<Seq<char>> {
    entries.map_values(|e: (String, V)| e.0@)
}

/// The first name, from position `i` on, that an earlier name repeats.
pub open spec fn first_repeat_from(names: Seq<Seq<char>>, i: int) -> Option<Seq<char>>
    decreases names.len() - i,
{
    if i < 0 || i >= names.len() {
        None
    } else if names.take(i).contains(names[i]) {
        Some(names[i])
    } else {
        first_repeat_from(names, i + 1)
    }
}

/// No name is repeated exactly when `first_repeat_from` finds none.
pub proof fn lemma_first_repeat(names: Seq<Seq<char>>, i: int)
    requires
        0 <= i <= names.len(),
        forall|a: int, b: int| 0 <= a < b < i ==> names[a] != names[b],
    ensures
        first_repeat_from(names, i) is None <==> names.no_duplicates(),
    decreases names.len() - i,
{
    if i < names.len() {
        if names.take(i).contains(names[i]) {
            let a = choose|a: int| 0 <= a < i && names.take(i)[a] == names[i];
            assert(names[a] == names[i]);
        } else {
            assert forall|a: int, b: int| 0 <= a < b < i + 1 implies names[a] != names[b] by {
                if b == i {
                    assert(names.take(i)[a] == names[a]);
                }
            }
            lemma_first_repeat(names, i + 1);
        }
    } else {
        assert forall|a: int, b: int| 0 <= a < names.len() && 0 <= b < names.len() && a != b implies names[a]
            != names[b] by {
            if a < b {
            } else {
            }
        }
    }
}

/// Each record type and each rule is declared once.
pub open spec fn names_distinct(c: Config) -> bool {
    entry_names(c.record_types@).no_duplicates() && entry_names(c.rules@).no_duplicates()
}

/// Why `c` cannot be used, if it cannot: a schema version this build does
/// not understand; else a record type or a rule declared twice; else a
/// rule name it does not ship; else a rule whose options are wrong.
pub open spec fn config_error(c: Config) -> Option<ConfigErrorView> {
    if c.schema_version != CURRENT_SCHEMA_VERSION {
        Some(ConfigErrorView::UnrecognizedSchemaVersion { found: c.schema_version })
    } else if let Some(n) = first_repeat_from(entry_names(c.record_types@), 0) {
        Some(ConfigErrorView::DuplicateName { section: "record_types"@, name: n })
    } else if let Some(n) = first_repeat_from(entry_names(c.rules@), 0) {
        Some(ConfigErrorView::DuplicateName { section: "rules"@, name: n })
    } else {
        match first_unknown_rule(c.rules@) {
            Some(found) => Some(ConfigErrorView::UnknownRule { found, known: sorted(rule_ids()) }),
            None => first_setting_error(c.rules@),
        }
    }
}

fn is_rule_id(name: &str) -> (r: bool)
    ensures
        r == rule_ids().contains(name@),
{
    let ids = all_rules();
    let ghost v = ids@.map_values(|s: &str| s@);
    let mut i: usize = 0;
    while i < ids.len()
        invariant
            i <= ids.len(),
            v == ids@.map_values(|s: &str| s@),
            v == rule_ids(),
            forall|k: int| 0 <= k < i ==> v[k] != name@,
        decreases ids.len() - i,
    {
        if str_eq(ids[i], name) {
            assert(v[i as int] == name@);
            return true;
        }
        i += 1;
    }
    false
}

fn is_declared_list(v: &Option<Vec<String>>) -> (r: bool)
    ensures
        r == declared_list(*v),
{
    match v {
        None => false,
        Some(l) => {
            if l.len() == 0 {
                return false;
            }
            let mut i: usize = 0;
            while i < l.len()
                invariant
                    *v == Some(*l),
                    l@.len() > 0,
                    i <= l.len(),
                    forall|k: int| 0 <= k < i ==> trim(#[trigger] l@[k]@).len() > 0,
                decreases l.len() - i,
            {
                let c = chars_of(l[i].as_str());
                let t = trim_vec(&c);
                if t.len() == 0 {
                    assert(trim(l@[i as int]@).len() == 0);
                    return false;
                }
                i += 1;
            }
            true
        },
    }
}

fn check_setting(name: &String, s: &RuleSetting) -> (r: Option<ConfigError>)
    ensures
        match r {
            Some(e) => setting_error(name@, *s) == Some(e@),
            None => setting_error(name@, *s) is None,
        },
{
    let is_target = str_eq(name.as_str(), RULE_POINTER_TARGET_STATUS);
    let is_claim = str_eq(name.as_str(), RULE_CLAIM_STATUS_AGREEMENT);
    let on = s.level != RuleLevel::Off;
    if s.not_in.is_some() && !is_target {
        return Some(ConfigError::OptionNotApplicable { rule: name.clone(), option: copy_str("not_in") });
    }
    if s.claim_paths.is_some() && !is_claim {
        return Some(ConfigError::OptionNotApplicable { rule: name.clone(), option: copy_str("claim_paths") });
    }
    if s.closed_statuses.is_some() && !is_claim {
        return Some(ConfigError::OptionNotApplicable { rule: name.clone(), option: copy_str("closed_statuses") });
    }
    if s.terminal_statuses.is_some() && !str_eq(name.as_str(), RULE_NARRATIVE_FIELD_STALE) {
        return Some(ConfigError::OptionNotApplicable { rule: name.clone(), option: copy_str("terminal_statuses") });
    }
    if is_claim && on && !is_declared_list(&s.claim_paths) {
        return Some(
            ConfigError::OptionRequired {
                rule: name.clone(),
                option: copy_str("claim_paths"),
                consequence: copy_str("scans nothing and can never report"),
            },
        );
    }
    if is_claim && on && !is_declared_list(&s.closed_statuses) {
        return Some(
            ConfigError::OptionRequired {
                rule: name.clone(),
                option: copy_str("closed_statuses"),
                consequence: copy_str("treats every claim as a violation, including correct ones"),
            },
        );
    }
    if is_target && on && !is_declared_list(&s.not_in) {
        return Some(
            ConfigError::OptionRequired {
                rule: name.clone(),
                option: copy_str("not_in"),
                consequence: copy_str("examines every reference and can never report"),
            },
        );
    }
    None
}

/// Every rule id this build ships, sorted.
pub fn known_rules() -> (r: Vec<String>)
    ensures
        string_views(r@) == sorted(rule_ids()),
{
    let ids = all_rules();
    let mut v: Vec<String> = Vec::new();
    let mut i: usize = 0;
    while i < ids.len()
        invariant
            i <= ids.len(),
            ids@.map_values(|s: &str| s@) == rule_ids(),
            string_views(v@) == rule_ids().take(i as int),
        decreases ids.len() - i,
    {
        let ghost before = string_views(v@);
        v.push(copy_str(ids[i]));
        assert(ids@.map_values(|s: &str| s@)[i as int] == ids@[i as int]@);
        assert(string_views(v@) =~= before.push(ids@[i as int]@));
        assert(rule_ids().take(i + 1) =~= rule_ids().take(i as int).push(rule_ids()[i as int]));
        i += 1;
    }
    assert(rule_ids().take(ids.len() as int) =~= rule_ids());
    sort_strings(v)
}

/// The first name in `entries` that an earlier entry already has.
fn first_repeated<V>(entries: &Vec<(String, V)>) -> (r: Option<String>)
    ensures
        match r {
            Some(n) => first_repeat_from(entry_names(entries@), 0) == Some(n@),
            None => first_repeat_from(entry_names(entries@), 0) is None,
        },
{
    let ghost names = entry_names(entries@);
    let mut i: usize = 0;
    while i < entries.len()
        invariant
            i <= entries.len(),
            names == entry_names(entries@),
            first_repeat_from(names, 0) == first_repeat_from(names, i as int),
        decreases entries.len() - i,
    {
        let mut j: usize = 0;
        while j < i
            invariant
                j <= i < entries.len(),
                names == entry_names(entries@),
                first_repeat_from(names, 0) == first_repeat_from(names, i as int),
                forall|k: int| 0 <= k < j ==> names[k] != names[i as int],
            decreases i - j,
        {
            if str_eq(entries[j].0.as_str(), entries[i].0.as_str()) {
                let n = entries[i].0.clone();
                assert(names[i as int] == n@);
                assert(names.take(i as int)[j as int] == names[i as int]);
                assert(names.take(i as int).contains(names[i as int]));
                assert(first_repeat_from(names, i as int) == Some(n@));
                return Some(n);
            }
            j += 1;
        }
        assert(!names.take(i as int).contains(names[i as int]));
        i += 1;
    }
    None
}

/// Check a loaded configuration before any rule runs: its schema version,
/// that it declares each record type and each rule once, that every rule
/// it names exists, and that every rule's options fit it.
/// A misspelled rule name, or an option-taking rule given no option, would
/// otherwise be a check that silently never fires.
pub fn validate(config: Config) -> (r: Result<Config, ConfigError>)
    ensures
        match r {
            Ok(c) => config_error(config) is None && c == config && names_distinct(c),
            Err(e) => config_error(config) == Some(e@),
        },
{
    if config.schema_version != CURRENT_SCHEMA_VERSION {
        return Err(ConfigError::UnrecognizedSchemaVersion { found: config.schema_version });
    }
    if let Some(name) = first_repeated(&config.record_types) {
        return Err(ConfigError::DuplicateName { section: copy_str("record_types"), name });
    }
    if let Some(name) = first_repeated(&config.rules) {
        return Err(ConfigError::DuplicateName { section: copy_str("rules"), name });
    }
    proof {
        lemma_first_repeat(entry_names(config.record_types@), 0);
        lemma_first_repeat(entry_names(config.rules@), 0);
    }
    let mut i: usize = 0;
    assert(config.rules@.skip(0) =~= config.rules@);
    while i < config.rules.len()
        invariant
            config.schema_version == CURRENT_SCHEMA_VERSION,
            first_repeat_from(entry_names(config.record_types@), 0) is None,
            first_repeat_from(entry_names(config.rules@), 0) is None,
            names_distinct(config),
            i <= config.rules.len(),
            first_unknown_rule(config.rules@) == first_unknown_rule(config.rules@.skip(i as int)),
        decreases config.rules.len() - i,
    {
        assert(config.rules@.skip(i as int).drop_first() =~= config.rules@.skip(i + 1));
        assert(config.rules@.skip(i as int)[0] == config.rules@[i as int]);
        if !is_rule_id(config.rules[i].0.as_str()) {
            let known = known_rules();
            return Err(ConfigError::UnknownRule { found: config.rules[i].0.clone(), known });
        }
        i += 1;
    }
    let mut j: usize = 0;
    assert(config.rules@.skip(i as int).len() == 0);
    while j < config.rules.len()
        invariant
            config.schema_version == CURRENT_SCHEMA_VERSION,
            first_repeat_from(entry_names(config.record_types@), 0) is None,
            first_repeat_from(entry_names(config.rules@), 0) is None,
            names_distinct(config),
            j <= config.rules.len(),
            first_unknown_rule(config.rules@) is None,
            first_setting_error(config.rules@) == first_setting_error(config.rules@.skip(j as int)),
        decreases config.rules.len() - j,
    {
        assert(config.rules@.skip(j as int).drop_first() =~= config.rules@.skip(j + 1));
        assert(config.rules@.skip(j as int)[0] == config.rules@[j as int]);
        match check_setting(&config.rules[j].0, &config.rules[j].1) {
            Some(e) => return Err(e),
            None => {},
        }
        j += 1;
    }
    Ok(config)
}
} // verus!
