//! Which rules run, and at what severity: a rule a repository has not
//! declared does not run at all, and a declared level replaces whatever
//! severity the rule chose.
use crate::config::{lookup, Config, RuleLevel};
use crate::report::{
    finding_views, Finding, FindingSeverity, FindingView, PopulationUnit, RuleExecution, RuleStatus,
};
use crate::text::copy_str;
use vstd::prelude::*;

verus! {

/// The severity a declared level gives every finding.
pub open spec fn level_severity(level: RuleLevel) -> FindingSeverity {
    match level {
        RuleLevel::Error => FindingSeverity::Error,
        _ => FindingSeverity::Warning,
    }
}

/// Findings with their severity replaced.
pub open spec fn with_severity(fs: Seq<FindingView>, sev: FindingSeverity) -> Seq<FindingView> {
    fs.map_values(|f: FindingView| FindingView { severity: sev, ..f })
}

/// Whether the configuration turns the rule `id` on.
pub open spec fn enabled(config: Config, id: Seq<char>) -> bool {
    match lookup(config.rules@, id) {
        Some(s) => s.level != RuleLevel::Off,
        None => false,
    }
}

fn opt_copy(o: &Option<String>) -> (r: Option<String>)
    ensures
        crate::report::opt_view(r) == crate::report::opt_view(*o),
{
    match o {
        Some(s) => Some(s.clone()),
        None => None,
    }
}

/// Run the rule `id` only if the configuration declares it at a level other
/// than `off`, and give every finding the declared severity. An undeclared
/// or declined rule is reported as not enabled, with no population and no
/// findings; `run` is not called.
pub fn gated<F>(config: &Config, id: &str, run: F) -> (r: (RuleExecution, Vec<Finding>))
    where
        F: FnOnce() -> (RuleExecution, Vec<Finding>),
    requires
        call_requires(run, ()),
    ensures
        !enabled(*config, id@) ==> {
            &&& r.0.rule@ == id@
            &&& r.0.status == RuleStatus::NotEnabled
            &&& r.0.population is None
            &&& r.0.examined_records@.len() == 0
            &&& r.1@.len() == 0
        },
        enabled(*config, id@) ==> exists|out: (RuleExecution, Vec<Finding>)| {
            &&& call_ensures(run, (), out)
            &&& r.0 == out.0
            &&& finding_views(r.1@) == with_severity(
                finding_views(out.1@),
                level_severity(lookup(config.rules@, id@)->0.level),
            )
        },
{
    let level = match config.rule_setting(id) {
        Some(s) => s.level,
        None => RuleLevel::Off,
    };
    if level == RuleLevel::Off {
        return (
            RuleExecution { rule: copy_str(id), population: None, status: RuleStatus::NotEnabled, examined_records: Vec::new() },
            Vec::new(),
        );
    }
    let severity = match level {
        RuleLevel::Error => FindingSeverity::Error,
        _ => FindingSeverity::Warning,
    };
    let out = run();
    let (exec, findings) = out;
    let ghost fv = finding_views(findings@);
    let mut leveled: Vec<Finding> = Vec::new();
    let mut i: usize = 0;
    while i < findings.len()
        invariant
            i <= findings.len(),
            fv == finding_views(findings@),
            finding_views(leveled@) == with_severity(fv.take(i as int), severity),
        decreases findings.len() - i,
    {
        let f = &findings[i];
        let ghost before = finding_views(leveled@);
        leveled.push(Finding {
            rule: f.rule.clone(),
            severity,
            file: f.file.clone(),
            line: f.line,
            message: f.message.clone(),
            waived: opt_copy(&f.waived),
        });
        assert(fv[i as int] == f@);
        assert(finding_views(leveled@) =~= before.push(FindingView { severity, ..fv[i as int] }));
        assert(with_severity(fv.take(i + 1), severity) =~= with_severity(fv.take(i as int), severity).push(
            FindingView { severity, ..fv[i as int] },
        ));
        i += 1;
    }
    assert(fv.take(findings.len() as int) =~= fv);
    (exec, leveled)
}

/// Whether an execution read records: it ran, and its population of
/// records or fields was non-empty.
pub open spec fn looked(e: RuleExecution) -> bool {
    e.status == RuleStatus::Ran && match e.population {
        Some(p) => (p@.unit == PopulationUnit::Record || p@.unit == PopulationUnit::Field) && p@.eligible > 0,
        None => false,
    }
}

/// Whether some rule able to judge records actually ran and was handed
/// some: a run in which none was has established nothing, and must not be
/// reported clean. One rule handed nothing among others that had work is
/// not a fault.
pub fn any_rule_looked(executed: &[RuleExecution]) -> (r: bool)
    ensures
        r == exists|i: int| 0 <= i < executed@.len() && looked(#[trigger] executed@[i]),
{
    let mut i: usize = 0;
    while i < executed.len()
        invariant
            i <= executed.len(),
            forall|k: int| 0 <= k < i ==> !looked(#[trigger] executed@[k]),
        decreases executed.len() - i,
    {
        let e = &executed[i];
        if e.status == RuleStatus::Ran {
            match &e.population {
                Some(p) => {
                    let u = p.unit();
                    if (u == PopulationUnit::Record || u == PopulationUnit::Field) && p.eligible() > 0 {
                        assert(looked(executed@[i as int]));
                        return true;
                    }
                },
                None => {},
            }
        }
        i += 1;
    }
    false
}

} // verus!
