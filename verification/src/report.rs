//! The output contract: `status`, `files_examined`, `rules_executed` (with
//! each rule's input population -- `rules_executed` alone doesn't prove a
//! rule examined anything), `scope`, `blocking`, `findings`. This module
//! only defines the data shapes and the exit codes; printing is the
//! caller's business.
use crate::text::{chars_of, seq_eq};
use vstd::prelude::*;

verus! {

#[derive(Debug, Clone, Copy, PartialEq, Eq, Structural)]
pub enum FindingSeverity {
    Error,
    Warning,
}

#[derive(Debug, Clone)]
pub struct Finding {
    pub rule: String,
    pub severity: FindingSeverity,
    pub file: String,
    pub line: Option<usize>,
    pub message: String,
    /// The covering waiver record's id, if any. A waived finding is still
    /// listed -- never omitted -- only excluded from `blocking`/`status`.
    pub waived: Option<String>,
}

/// A finding as plain values.
pub struct FindingView {
    pub rule: Seq<char>,
    pub severity: FindingSeverity,
    pub file: Seq<char>,
    pub line: Option<usize>,
    pub message: Seq<char>,
    pub waived: Option<Seq<char>>,
}

pub open spec fn opt_view(o: Option<String>) -> Option<Seq<char>> {
    match o {
        Some(s) => Some(s@),
        None => None,
    }
}

impl View for Finding {
    type V = FindingView;

    open spec fn view(&self) -> FindingView {
        FindingView {
            rule: self.rule@,
            severity: self.severity,
            file: self.file@,
            line: self.line,
            message: self.message@,
            waived: opt_view(self.waived),
        }
    }
}

pub open spec fn finding_views(fs: Seq<Finding>) -> Seq<FindingView> {
    fs.map_values(|f: Finding| f@)
}

/// A finding nobody has waived yet.
pub open spec fn finding_of(
    rule: Seq<char>,
    severity: FindingSeverity,
    file: Seq<char>,
    line: Option<usize>,
    message: Seq<char>,
) -> FindingView {
    FindingView { rule, severity, file, line, message, waived: None }
}

/// Builds an unwaived finding.
pub fn new_finding(
    rule: &str,
    severity: FindingSeverity,
    file: &str,
    line: Option<usize>,
    message: String,
) -> (f: Finding)
    ensures
        f@ == finding_of(rule@, severity, file@, line, message@),
{
    Finding {
        rule: rule.to_owned(),
        severity,
        file: file.to_owned(),
        line,
        message,
        waived: None,
    }
}

/// What a rule's population is counted in.
#[derive(Debug, Clone, Copy, PartialEq, Eq, Structural)]
pub enum PopulationUnit {
    /// One entry in `config.record_types`.
    RecordType,
    /// One tracked record-shaped path, judged without opening the file.
    Path,
    /// One loaded record; the verdict is about the file as a whole.
    Record,
    /// One `(record, field-name)` pair where the name is declared by config.
    Field,
    /// One closure assertion drawn from a declared `claim_paths` tree.
    Claim,
    /// One other rule's execution.
    Rule,
}

/// What a rule decided about one candidate it was handed. There is no "not
/// in the population" answer: the candidate list is the population.
#[derive(Debug, Clone, Copy, PartialEq, Eq, Structural)]
pub enum Outcome {
    /// The rule reached a verdict about this candidate.
    Examined,
    /// The declared slot or section is not there.
    Absent,
    /// Present, and the rule could not read it.
    Unreadable,
    /// The record does not match the shape the configuration declared.
    OutOfScope,
}

/// A rule's input population: what it was eligible to examine, and what it
/// judged. `examined <= eligible` always holds: the fields are private and
/// every way in upholds it.
#[derive(Debug, Clone, Copy, PartialEq, Eq)]
pub struct Population {
    unit: PopulationUnit,
    eligible: usize,
    examined: usize,
    /// Candidates the configuration does not reach.
    out_of_scope: usize,
    /// Candidates present and unreadable: a header that did not parse.
    unreadable: usize,
}

pub struct PopulationView {
    pub unit: PopulationUnit,
    pub eligible: nat,
    pub examined: nat,
    pub out_of_scope: nat,
    pub unreadable: nat,
}

impl View for Population {
    type V = PopulationView;

    closed spec fn view(&self) -> PopulationView {
        PopulationView {
            unit: self.unit,
            eligible: self.eligible as nat,
            examined: self.examined as nat,
            out_of_scope: self.out_of_scope as nat,
            unreadable: self.unreadable as nat,
        }
    }
}

impl Population {
    #[verifier::type_invariant]
    spec fn bounded(self) -> bool {
        self.examined <= self.eligible
    }

    pub fn unit(&self) -> (r: PopulationUnit)
        ensures
            r == self@.unit,
    {
        self.unit
    }

    pub fn eligible(&self) -> (r: usize)
        ensures
            r == self@.eligible,
            self@.examined <= self@.eligible,
    {
        proof {
            use_type_invariant(self);
        }
        self.eligible
    }

    /// What the rule judged -- never more than it was eligible for.
    pub fn examined(&self) -> (r: usize)
        ensures
            r == self@.examined,
            r <= self@.eligible,
    {
        proof {
            use_type_invariant(self);
        }
        self.examined
    }

    /// How many candidates the configuration could not reach.
    pub fn out_of_scope(&self) -> (r: usize)
        ensures
            r == self@.out_of_scope,
    {
        self.out_of_scope
    }

    /// How many candidates were there and could not be read.
    pub fn unreadable(&self) -> (r: usize)
        ensures
            r == self@.unreadable,
    {
        self.unreadable
    }

    pub fn of(unit: PopulationUnit, eligible: usize, examined: usize) -> (p: Population)
        requires
            examined <= eligible,
        ensures
            p@ == (PopulationView {
                unit,
                eligible: eligible as nat,
                examined: examined as nat,
                out_of_scope: 0,
                unreadable: 0,
            }),
    {
        Population::detailed(unit, eligible, examined, 0, 0)
    }

    /// `of`, naming how many candidates were beyond the configuration's
    /// reach and how many could not be read.
    pub fn detailed(
        unit: PopulationUnit,
        eligible: usize,
        examined: usize,
        out_of_scope: usize,
        unreadable: usize,
    ) -> (p: Population)
        requires
            examined <= eligible,
        ensures
            p@ == (PopulationView {
                unit,
                eligible: eligible as nat,
                examined: examined as nat,
                out_of_scope: out_of_scope as nat,
                unreadable: unreadable as nat,
            }),
    {
        Population { unit, eligible, examined, out_of_scope, unreadable }
    }
}

/// How many outcomes are `o`.
pub open spec fn count(outs: Seq<Outcome>, o: Outcome) -> nat
    decreases outs.len(),
{
    if outs.len() == 0 {
        0
    } else {
        count(outs.drop_last(), o) + if outs.last() == o {
            1nat
        } else {
            0nat
        }
    }
}

pub proof fn lemma_count_le(outs: Seq<Outcome>, o: Outcome)
    ensures
        count(outs, o) <= outs.len(),
    decreases outs.len(),
{
    if outs.len() > 0 {
        lemma_count_le(outs.drop_last(), o);
    }
}

/// Every candidate has exactly one outcome, so the four counts add up to the
/// candidate list's length.
pub proof fn lemma_outcomes_partition(outs: Seq<Outcome>)
    ensures
        count(outs, Outcome::Examined) + count(outs, Outcome::Absent) + count(outs, Outcome::Unreadable)
            + count(outs, Outcome::OutOfScope) == outs.len(),
    decreases outs.len(),
{
    if outs.len() > 0 {
        lemma_outcomes_partition(outs.drop_last());
    }
}

/// A census never reports more judged, unreachable and unreadable
/// candidates together than it was handed.
pub proof fn lemma_census_within_eligible(unit: PopulationUnit, outs: Seq<Outcome>)
    ensures
        population_of(unit, outs).examined + population_of(unit, outs).out_of_scope + population_of(
            unit,
            outs,
        ).unreadable <= population_of(unit, outs).eligible,
        population_of(unit, outs).eligible == outs.len(),
{
    lemma_outcomes_partition(outs);
}

/// The population a list of per-candidate outcomes amounts to.
pub open spec fn population_of(unit: PopulationUnit, outs: Seq<Outcome>) -> PopulationView {
    PopulationView {
        unit,
        eligible: outs.len(),
        examined: count(outs, Outcome::Examined),
        out_of_scope: count(outs, Outcome::OutOfScope),
        unreadable: count(outs, Outcome::Unreadable),
    }
}

/// Count a population from what the rule decided about each candidate:
/// `eligible` is the candidate list's length, so it cannot drift from the
/// rule's own skips.
pub fn census(unit: PopulationUnit, outcomes: &Vec<Outcome>) -> (p: Population)
    ensures
        p@ == population_of(unit, outcomes@),
{
    let mut examined: usize = 0;
    let mut out_of_scope: usize = 0;
    let mut unreadable: usize = 0;
    let mut i: usize = 0;
    while i < outcomes.len()
        invariant
            i <= outcomes.len(),
            examined == count(outcomes@.take(i as int), Outcome::Examined),
            out_of_scope == count(outcomes@.take(i as int), Outcome::OutOfScope),
            unreadable == count(outcomes@.take(i as int), Outcome::Unreadable),
        decreases outcomes.len() - i,
    {
        proof {
            assert(outcomes@.take(i + 1).drop_last() =~= outcomes@.take(i as int));
            lemma_count_le(outcomes@.take(i as int), Outcome::Examined);
            lemma_count_le(outcomes@.take(i as int), Outcome::OutOfScope);
            lemma_count_le(outcomes@.take(i as int), Outcome::Unreadable);
        }
        match outcomes[i] {
            Outcome::Examined => examined += 1,
            Outcome::OutOfScope => out_of_scope += 1,
            Outcome::Unreadable => unreadable += 1,
            Outcome::Absent => {},
        }
        i += 1;
    }
    assert(outcomes@.take(outcomes@.len() as int) == outcomes@);
    proof {
        lemma_count_le(outcomes@, Outcome::Examined);
    }
    Population::detailed(unit, outcomes.len(), examined, out_of_scope, unreadable)
}

pub open spec fn string_views(s: Seq<String>) -> Seq<Seq<char>> {
    s.map_values(|x: String| x@)
}

/// The paths of the candidates judged `Examined`, in order.
pub open spec fn examined_paths(outs: Seq<Outcome>, paths: Seq<Seq<char>>) -> Seq<Seq<char>>
    decreases outs.len(),
{
    if outs.len() == 0 {
        Seq::empty()
    } else {
        let r = examined_paths(outs.drop_last(), paths);
        if outs.last() == Outcome::Examined {
            r.push(paths[outs.len() - 1])
        } else {
            r
        }
    }
}

/// Whether `v` holds a string equal to `s`.
pub fn contains_string(v: &Vec<String>, s: &str) -> (r: bool)
    ensures
        r == string_views(v@).contains(s@),
{
    let target = chars_of(s);
    let mut i: usize = 0;
    while i < v.len()
        invariant
            i <= v.len(),
            target@ == s@,
            forall|k: int| 0 <= k < i ==> v@[k]@ != s@,
        decreases v.len() - i,
    {
        let c = chars_of(v[i].as_str());
        if seq_eq(&c, &target) {
            assert(string_views(v@)[i as int] == s@);
            return true;
        }
        i += 1;
    }
    proof {
        if string_views(v@).contains(s@) {
            let k = choose|k: int| 0 <= k < v@.len() && string_views(v@)[k] == s@;
            assert(v@[k]@ == s@);
        }
    }
    false
}

/// `census`, also reporting *which* records were judged: each judged
/// candidate's record path, once per record however it is spelled, sorted
/// as paths.
pub fn census_records(unit: PopulationUnit, outcomes: &Vec<Outcome>, record_of: &Vec<String>) -> (r: (Population, Vec<String>))
    requires
        outcomes@.len() == record_of@.len(),
    ensures
        r.0@ == population_of(unit, outcomes@),
        string_views(r.1@) == crate::order::path_sorted(
            crate::order::path_distinct(examined_paths(outcomes@, string_views(record_of@))),
        ),
{
    let ghost paths = string_views(record_of@);
    let mut judged: Vec<String> = Vec::new();
    let mut i: usize = 0;
    while i < outcomes.len()
        invariant
            outcomes@.len() == record_of@.len(),
            paths == string_views(record_of@),
            i <= outcomes.len(),
            string_views(judged@) == crate::order::path_distinct(examined_paths(outcomes@.take(i as int), paths)),
        decreases outcomes.len() - i,
    {
        let ghost pre = outcomes@.take(i as int);
        assert(outcomes@.take(i + 1).drop_last() =~= pre);
        assert(outcomes@.take(i + 1).last() == outcomes@[i as int]);
        assert(paths[i as int] == record_of@[i as int]@);
        if outcomes[i] == Outcome::Examined {
            let ghost e = examined_paths(pre, paths);
            assert(examined_paths(outcomes@.take(i + 1), paths) == e.push(paths[i as int]));
            assert(e.push(paths[i as int]).drop_last() =~= e);
            if !crate::order::contains_path(&judged, record_of[i].as_str()) {
                let ghost before = string_views(judged@);
                judged.push(record_of[i].clone());
                assert(string_views(judged@) =~= before.push(paths[i as int]));
            }
        }
        i += 1;
    }
    assert(outcomes@.take(outcomes@.len() as int) == outcomes@);
    (census(unit, outcomes), crate::order::sort_paths(judged))
}

#[derive(Debug, Clone, Copy, PartialEq, Eq, Structural)]
pub enum RuleStatus {
    Ran,
    NotEnabled,
}

/// One rule's execution record: not just "did it run" but what it was handed
/// and what it judged.
#[derive(Debug, Clone)]
pub struct RuleExecution {
    pub rule: String,
    /// What this rule was handed and what it judged. `None` only when the
    /// rule was not enabled, where `status` says so.
    pub population: Option<Population>,
    /// A rule a repository did not turn on is reported as deliberately
    /// skipped, never omitted.
    pub status: RuleStatus,
    /// The records this rule reached a verdict about.
    pub examined_records: Vec<String>,
}

/// Every examined-record path of the executions that ran, in order.
pub open spec fn ran_paths(executed: Seq<RuleExecution>) -> Seq<Seq<char>>
    decreases executed.len(),
{
    if executed.len() == 0 {
        Seq::empty()
    } else {
        let e = executed.last();
        ran_paths(executed.drop_last()) + if e.status == RuleStatus::Ran {
            string_views(e.examined_records@)
        } else {
            Seq::empty()
        }
    }
}

/// The number of distinct records some rule reached a verdict about: a
/// union over the rules that ran, never a sum. A record is one path however
/// its path is spelled.
pub fn records_read_by_any_rule(executed: &[RuleExecution]) -> (n: usize)
    ensures
        n == crate::order::path_distinct(ran_paths(executed@)).len(),
{
    let seen = read_paths(executed, None);
    seen.len()
}

/// `records_read_by_any_rule`, restricted to the paths in `in_scope`,
/// however each is spelled.
pub fn records_read_by_any_rule_within(executed: &[RuleExecution], in_scope: &Vec<String>) -> (n: usize)
    ensures
        n == crate::order::path_distinct(
            ran_paths(executed@).filter(|p: Seq<char>| crate::order::has_same_path(string_views(in_scope@), p)),
        ).len(),
{
    let seen = read_paths(executed, Some(in_scope));
    seen.len()
}

pub open spec fn scoped(paths: Seq<Seq<char>>, scope: Option<&Vec<String>>) -> Seq<Seq<char>> {
    match scope {
        Some(v) => paths.filter(|p: Seq<char>| crate::order::has_same_path(string_views(v@), p)),
        None => paths,
    }
}

fn read_paths(executed: &[RuleExecution], scope: Option<&Vec<String>>) -> (r: Vec<String>)
    ensures
        string_views(r@) == crate::order::path_distinct(scoped(ran_paths(executed@), scope)),
{
    let mut seen: Vec<String> = Vec::new();
    let mut i: usize = 0;
    while i < executed.len()
        invariant
            i <= executed.len(),
            string_views(seen@) == crate::order::path_distinct(scoped(ran_paths(executed@.take(i as int)), scope)),
        decreases executed.len() - i,
    {
        let ghost pre = ran_paths(executed@.take(i as int));
        assert(executed@.take(i + 1).drop_last() =~= executed@.take(i as int));
        assert(executed@.take(i + 1).last() == executed@[i as int]);
        let e = &executed[i];
        if e.status == RuleStatus::Ran {
            let ghost ev = string_views(e.examined_records@);
            let mut k: usize = 0;
            while k < e.examined_records.len()
                invariant
                    ev == string_views(e.examined_records@),
                    k <= e.examined_records.len(),
                    string_views(seen@) == crate::order::path_distinct(scoped(pre + ev.take(k as int), scope)),
                decreases e.examined_records.len() - k,
            {
                let p = &e.examined_records[k];
                assert(ev[k as int] == p@);
                assert(pre + ev.take(k + 1) =~= (pre + ev.take(k as int)).push(p@));
                let keep = match scope {
                    Some(v) => crate::order::contains_path(v, p.as_str()),
                    None => true,
                };
                proof {
                    lemma_scoped_push(pre + ev.take(k as int), p@, scope);
                }
                let ghost sc = scoped(pre + ev.take(k as int), scope);
                assert(keep ==> scoped(pre + ev.take(k + 1), scope) == sc.push(p@));
                assert(!keep ==> scoped(pre + ev.take(k + 1), scope) == sc);
                assert(sc.push(p@).drop_last() =~= sc);
                if keep {
                    if !crate::order::contains_path(&seen, p.as_str()) {
                        let ghost before = string_views(seen@);
                        seen.push(p.clone());
                        assert(string_views(seen@) =~= before.push(p@));
                    }
                }
                k += 1;
            }
            assert(ev.take(ev.len() as int) =~= ev);
        } else {
            assert(pre + Seq::<Seq<char>>::empty() =~= pre);
        }
        i += 1;
    }
    assert(executed@.take(executed@.len() as int) == executed@);
    seen
}

pub proof fn lemma_scoped_push(s: Seq<Seq<char>>, p: Seq<char>, scope: Option<&Vec<String>>)
    ensures
        scoped(s.push(p), scope) == match scope {
            Some(v) => if crate::order::has_same_path(string_views(v@), p) {
                scoped(s, scope).push(p)
            } else {
                scoped(s, scope)
            },
            None => s.push(p),
        },
{
    match scope {
        Some(v) => {
            reveal(Seq::filter);
            assert(s.push(p).drop_last() =~= s);
        },
        None => {},
    }
}

#[derive(Debug, Clone, Copy, PartialEq, Eq, Structural)]
pub enum ReportStatus {
    /// Ran, and nothing blocks (serialized as `ok`).
    Clean,
    FindingsPresent,
    /// A zero selection, or discovery/parsing could not run at all.
    NotRun,
}

/// How the examined set was selected.
#[derive(Debug, Clone, Copy, PartialEq, Eq, Structural)]
pub enum ScopeSource {
    TrackedSweep,
}

#[derive(Debug, Clone)]
pub struct ScopeInfo {
    pub source: ScopeSource,
    pub record_types: Vec<String>,
}

/// `Info`/`Warning` only: a notice can never contradict the exit code.
#[derive(Debug, Clone, Copy, PartialEq, Eq, Structural)]
pub enum NoticeSeverity {
    Info,
    Warning,
}

/// A non-fatal, non-file-scoped observation about an otherwise-successful
/// run. Never affects a report's exit code.
#[derive(Debug, Clone)]
pub struct Notice {
    pub severity: NoticeSeverity,
    pub subject: String,
    pub message: String,
}

#[derive(Debug, Clone)]
pub struct CheckReport {
    pub status: ReportStatus,
    pub files_examined: usize,
    /// How many records some rule actually reached a verdict about.
    pub records_read_by_any_rule: usize,
    pub rules_executed: Vec<RuleExecution>,
    pub scope: ScopeInfo,
    pub blocking: bool,
    pub findings: Vec<Finding>,
    pub notices: Vec<Notice>,
}

/// 0 clean, 1 blocking findings, 2 could not run.
pub open spec fn check_exit_code(status: ReportStatus, blocking: bool) -> i32 {
    if status == ReportStatus::NotRun {
        2
    } else if blocking {
        1
    } else {
        0
    }
}

impl CheckReport {
    /// Exit codes: 0 clean, 1 blocking findings, 2 could not run. Notices
    /// take no part.
    pub fn exit_code(&self) -> (r: i32)
        ensures
            r == check_exit_code(self.status, self.blocking),
    {
        match self.status {
            ReportStatus::NotRun => 2,
            _ => if self.blocking {
                1
            } else {
                0
            },
        }
    }
}

/// A notice never moves a check's exit code: two reports that differ only
/// in their notices exit alike.
pub proof fn lemma_notices_never_move_the_exit_code(a: CheckReport, b: CheckReport)
    requires
        a.status == b.status,
        a.blocking == b.blocking,
    ensures
        check_exit_code(a.status, a.blocking) == check_exit_code(b.status, b.blocking),
{
}

/// The shared shape for every fatal "could not run at all" path.
#[derive(Debug, Clone)]
pub struct CouldNotRun {
    pub status: ReportStatus,
    pub error: String,
    pub notices: Vec<Notice>,
}

impl CouldNotRun {
    pub fn from(error: &str) -> (r: CouldNotRun)
        ensures
            r.status == ReportStatus::NotRun,
            r.error@ == error@,
            r.notices@.len() == 0,
    {
        CouldNotRun { status: ReportStatus::NotRun, error: error.to_owned(), notices: Vec::new() }
    }

    /// Always 2: it could not run.
    pub fn exit_code(&self) -> (r: u8)
        ensures
            r == 2,
    {
        2
    }
}

#[derive(Debug, Clone, Copy, PartialEq, Eq, Structural)]
pub enum FixStatus {
    NotRun,
    PartialFailure,
    /// Nothing to repair (serialized as `ok`).
    Clean,
    /// Detect mode found repairs, none applied yet.
    RepairsAvailable,
    /// Apply mode wrote one or more repairs, no failures.
    Applied,
}

#[derive(Debug, Clone)]
pub struct FixFailure {
    pub record: String,
    pub error: String,
}

pub open spec fn fix_exit_code(status: FixStatus) -> u8 {
    match status {
        FixStatus::NotRun => 2,
        FixStatus::PartialFailure => 1,
        _ => 0,
    }
}

/// The exit code of a fix run: 2 not run, 1 partial failure, 0 otherwise.
pub fn fix_status_exit_code(status: FixStatus) -> (r: u8)
    ensures
        r == fix_exit_code(status),
{
    match status {
        FixStatus::NotRun => 2,
        FixStatus::PartialFailure => 1,
        FixStatus::Clean | FixStatus::RepairsAvailable | FixStatus::Applied => 0,
    }
}


/// `urzua explain`'s report: always exit 0.
#[derive(Debug, Clone)]
pub struct ExplainReport {
    pub status: ReportStatus,
    pub path: String,
    pub governing_records: Vec<crate::graph::GoverningRecord>,
    pub notices: Vec<Notice>,
}

impl ExplainReport {
    pub fn exit_code(&self) -> (r: u8)
        ensures
            r == 0,
    {
        0
    }
}

/// `urzua graph`'s report: always exit 0.
#[derive(Debug, Clone)]
pub struct GraphReport {
    pub status: ReportStatus,
    pub edges: Vec<crate::graph::GraphEdge>,
    pub notices: Vec<Notice>,
}

impl GraphReport {
    pub fn exit_code(&self) -> (r: u8)
        ensures
            r == 0,
    {
        0
    }
}

/// `urzua new`'s report: always exit 0.
#[derive(Debug, Clone)]
pub struct NewReport {
    pub status: ReportStatus,
    pub path: String,
    pub display_number: u32,
    pub stable_id: String,
    pub notices: Vec<Notice>,
}

impl NewReport {
    pub fn exit_code(&self) -> (r: u8)
        ensures
            r == 0,
    {
        0
    }
}

/// `urzua fix`'s report; its status carries the outcome.
#[derive(Debug, Clone)]
pub struct FixReport {
    pub status: FixStatus,
    pub population: Population,
    pub repairs: Vec<crate::fix::Repair>,
    pub failed: Vec<FixFailure>,
    pub notices: Vec<Notice>,
}

impl FixReport {
    /// 2 not run, 1 partial failure, 0 otherwise.
    pub fn exit_code(&self) -> (r: u8)
        ensures
            r == fix_exit_code(self.status),
    {
        fix_status_exit_code(self.status)
    }
}

/// `urzua migrate schema --report`'s report: a read-only preview, always
/// exit 0.
#[derive(Debug, Clone)]
pub struct MigrateSchemaReport {
    pub status: ReportStatus,
    pub field: String,
    pub population: Population,
    pub would_fail: Vec<crate::migrate::SchemaReportEntry>,
    pub notices: Vec<Notice>,
}

impl MigrateSchemaReport {
    pub fn exit_code(&self) -> (r: u8)
        ensures
            r == 0,
    {
        0
    }
}
/// What happened to one record in a `Stable-Id` backfill.
#[derive(Debug, Clone, Copy, PartialEq, Eq, Structural)]
pub enum MigrateIdsOutcome {
    Applied,
    /// The record has no header region to take the field.
    Skipped,
    Failed,
}

#[derive(Debug, Clone)]
pub struct MigrateIdsResult {
    pub record: String,
    pub outcome: MigrateIdsOutcome,
    pub error: Option<String>,
}

/// `urzua migrate ids`'s report: the records lacking a `Stable-Id`, and,
/// when applied, what happened to each.
#[derive(Debug, Clone)]
pub struct MigrateIdsReport {
    pub status: ReportStatus,
    pub apply: bool,
    pub missing: Vec<String>,
    pub results: Vec<MigrateIdsResult>,
    pub notices: Vec<Notice>,
}

impl MigrateIdsReport {
    /// 1 when any write failed, else 0. A skipped record is no failure.
    pub fn exit_code(&self) -> (r: u8)
        ensures
            r == (if exists|i: int| 0 <= i < self.results@.len() && (#[trigger] self.results@[i]).outcome
                == MigrateIdsOutcome::Failed {
                1u8
            } else {
                0u8
            }),
    {
        let mut i: usize = 0;
        while i < self.results.len()
            invariant
                i <= self.results.len(),
                forall|k: int| 0 <= k < i ==> (#[trigger] self.results@[k]).outcome != MigrateIdsOutcome::Failed,
            decreases self.results.len() - i,
        {
            if self.results[i].outcome == MigrateIdsOutcome::Failed {
                return 1;
            }
            i += 1;
        }
        0
    }
}

} // verus!
