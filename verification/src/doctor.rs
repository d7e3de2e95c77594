//! The tool's own health: whether a repository has a configuration, whether
//! it loads, whether its declared directories exist, and whether anything
//! runs the checker. The caller looks at the filesystem; this module judges.
use crate::config::{lookup, Config, RecordTypeConfig};
use crate::report::{string_views, Notice};
use crate::rules::{sorted_type_names, type_names};
use crate::text::{append, chars_of, contains, contains_exec, copy_str};
use vstd::prelude::*;

verus! {

/// How one health check came out.
#[derive(Debug, Clone, Copy, PartialEq, Eq, Structural)]
pub enum DoctorStatus {
    /// Healthy (serialized as `ok`).
    Clean,
    Warn,
    Error,
}

#[derive(Debug, Clone)]
pub struct DoctorCheck {
    pub check: String,
    pub status: DoctorStatus,
    pub message: String,
}

/// `urzua doctor`'s report. `exit_code` is 2 when there is no
/// configuration, 1 when it does not load or any check is an error, else 0.
#[derive(Debug, Clone)]
pub struct DoctorReport {
    pub status: DoctorStatus,
    pub checks: Vec<DoctorCheck>,
    pub notices: Vec<Notice>,
    pub exit_code: u8,
}

/// `(check, status, message)`.
pub type CheckV = (Seq<char>, DoctorStatus, Seq<char>);

pub open spec fn check_views(cs: Seq<DoctorCheck>) -> Seq<CheckV> {
    cs.map_values(|c: DoctorCheck| (c.check@, c.status, c.message@))
}

/// The worst status among the checks.
pub open spec fn overall(cs: Seq<CheckV>) -> DoctorStatus {
    if exists|i: int| 0 <= i < cs.len() && (#[trigger] cs[i]).1 == DoctorStatus::Error {
        DoctorStatus::Error
    } else if exists|i: int| 0 <= i < cs.len() && (#[trigger] cs[i]).1 == DoctorStatus::Warn {
        DoctorStatus::Warn
    } else {
        DoctorStatus::Clean
    }
}

/// Whether a workflow's text runs the checker.
pub open spec fn runs_checker(workflow: Seq<char>) -> bool {
    contains(workflow, "urzua check"@) || contains(workflow, "make records"@)
}

/// Whether a workflow's text runs the checker: `urzua check`, or the
/// `make records` target that wraps it.
pub fn invokes_checker(workflow: &str) -> (r: bool)
    ensures
        r == runs_checker(workflow@),
{
    let cs = chars_of(workflow);
    let a = chars_of("urzua check");
    let b = chars_of("make records");
    contains_exec(&cs, &a) || contains_exec(&cs, &b)
}

/// The checks a declared type gets: its directory exists, and it requires
/// some field.
pub open spec fn type_checks(name: Seq<char>, t: RecordTypeConfig, existing: Seq<Seq<char>>) -> Seq<CheckV> {
    (if existing.contains(t.dir@) {
        seq![("record-type-dir"@, DoctorStatus::Clean, "record type '"@ + name + "' -> "@ + t.dir@ + " exists"@)]
    } else {
        seq![
            (
                "record-type-dir"@,
                DoctorStatus::Error,
                "record type '"@ + name + "' declares dir '"@ + t.dir@ + "', which does not exist"@,
            ),
        ]
    }) + if t.required_fields@.len() == 0 {
        seq![
            (
                "record-type-required-fields"@,
                DoctorStatus::Warn,
                "record type '"@ + name
                    + "' has no required_fields -- field.quality and field.pending will never fire for it"@,
            ),
        ]
    } else {
        Seq::empty()
    }
}

/// The checks of every declared type, by name in sorted order.
pub open spec fn all_type_checks(names: Seq<Seq<char>>, config: Config, existing: Seq<Seq<char>>) -> Seq<CheckV>
    decreases names.len(),
{
    if names.len() == 0 {
        Seq::empty()
    } else {
        all_type_checks(names.drop_last(), config, existing) + match lookup(config.record_types@, names.last()) {
            Some(t) => type_checks(names.last(), t, existing),
            None => Seq::empty(),
        }
    }
}

/// What the workflows say about whether the checker runs.
pub open spec fn ci_check(ci: Result<bool, Seq<char>>, workflows_dir: Seq<char>) -> CheckV {
    match ci {
        Err(m) => (
            "ci-wired"@,
            DoctorStatus::Error,
            m + " -- cannot tell whether the checker is wired in, which is not the same as it not being"@,
        ),
        Ok(true) => ("ci-wired"@, DoctorStatus::Clean, "a workflow invokes `urzua check` or `make records`"@),
        Ok(false) => (
            "ci-wired"@,
            DoctorStatus::Warn,
            "no workflow in "@ + workflows_dir
                + " invokes `urzua check` or `make records` -- a check that exists but is never run reports nothing to anyone"@,
        ),
    }
}

/// Every check of a repository whose configuration exists and loads.
pub open spec fn health_checks(
    config_path: Seq<char>,
    config: Config,
    existing: Seq<Seq<char>>,
    ci: Result<bool, Seq<char>>,
    workflows_dir: Seq<char>,
) -> Seq<CheckV> {
    seq![
        ("config-exists"@, DoctorStatus::Clean, config_path + " exists"@),
        ("config-parses"@, DoctorStatus::Clean, "config parses (no unrecognized keys)"@),
    ] + (if config.record_types@.len() == 0 {
        seq![
            (
                "record-types-declared"@,
                DoctorStatus::Error,
                "no record_types declared -- check will never examine anything"@,
            ),
        ]
    } else {
        Seq::empty()
    }) + all_type_checks(type_names(config), config, existing) + seq![ci_check(ci, workflows_dir)]
}

fn check(name: &str, status: DoctorStatus, message: String) -> (r: DoctorCheck)
    ensures
        r.check@ == name@,
        r.status == status,
        r.message == message,
{
    DoctorCheck { check: copy_str(name), status, message }
}

fn push_check(out: &mut Vec<DoctorCheck>, c: DoctorCheck)
    ensures
        check_views(final(out)@) == check_views(old(out)@).push((c.check@, c.status, c.message@)),
{
    let ghost before = check_views(out@);
    out.push(c);
    assert(check_views(out@) =~= before.push((c.check@, c.status, c.message@)));
}

fn worst(checks: &Vec<DoctorCheck>) -> (r: DoctorStatus)
    ensures
        r == overall(check_views(checks@)),
{
    let ghost cv = check_views(checks@);
    let mut error = false;
    let mut warn = false;
    let mut i: usize = 0;
    while i < checks.len()
        invariant
            i <= checks.len(),
            cv == check_views(checks@),
            error == exists|k: int| 0 <= k < i && (#[trigger] cv[k]).1 == DoctorStatus::Error,
            warn == exists|k: int| 0 <= k < i && (#[trigger] cv[k]).1 == DoctorStatus::Warn,
        decreases checks.len() - i,
    {
        assert(cv[i as int].1 == checks@[i as int].status);
        if checks[i].status == DoctorStatus::Error {
            error = true;
        }
        if checks[i].status == DoctorStatus::Warn {
            warn = true;
        }
        i += 1;
    }
    if error {
        DoctorStatus::Error
    } else if warn {
        DoctorStatus::Warn
    } else {
        DoctorStatus::Clean
    }
}

/// The report for a repository with no configuration: one error, exit 2.
pub fn missing_config(config_path: &str) -> (r: DoctorReport)
    ensures
        check_views(r.checks@) == seq![
            (
                "config-exists"@,
                DoctorStatus::Error,
                config_path@ + " does not exist -- run `urzua init` to adopt this corpus"@,
            ),
        ],
        r.status == DoctorStatus::Error,
        r.exit_code == 2,
        r.notices@.len() == 0,
{
    let mut m = copy_str(config_path);
    append(&mut m, " does not exist -- run `urzua init` to adopt this corpus");
    let mut checks: Vec<DoctorCheck> = Vec::new();
    push_check(&mut checks, check("config-exists", DoctorStatus::Error, m));
    DoctorReport { status: DoctorStatus::Error, checks, notices: Vec::new(), exit_code: 2 }
}

/// The report for a configuration that exists and does not load: exit 1.
pub fn unloadable_config(config_path: &str, error: &str) -> (r: DoctorReport)
    ensures
        check_views(r.checks@) == seq![
            ("config-exists"@, DoctorStatus::Clean, config_path@ + " exists"@),
            ("config-parses"@, DoctorStatus::Error, "config does not parse: "@ + error@),
        ],
        r.status == DoctorStatus::Error,
        r.exit_code == 1,
        r.notices@.len() == 0,
{
    let mut a = copy_str(config_path);
    append(&mut a, " exists");
    let mut b = copy_str("config does not parse: ");
    append(&mut b, error);
    let mut checks: Vec<DoctorCheck> = Vec::new();
    push_check(&mut checks, check("config-exists", DoctorStatus::Clean, a));
    push_check(&mut checks, check("config-parses", DoctorStatus::Error, b));
    DoctorReport { status: DoctorStatus::Error, checks, notices: Vec::new(), exit_code: 1 }
}

/// The report for a configuration that loads: which declared directories
/// exist (`existing_dirs`) and what the workflows in `workflows_dir` showed
/// (`ci`: whether one runs the checker, or why they could not be read) are
/// the caller's findings. The status is the worst check's; the exit code is
/// 1 when any check is an error, else 0.
pub fn health(
    config_path: &str,
    config: &Config,
    existing_dirs: &Vec<String>,
    ci: Result<bool, String>,
    workflows_dir: &str,
) -> (r: DoctorReport)
    ensures
        check_views(r.checks@) == health_checks(
            config_path@,
            *config,
            string_views(existing_dirs@),
            match ci {
                Ok(b) => Ok(b),
                Err(m) => Err(m@),
            },
            workflows_dir@,
        ),
        r.status == overall(check_views(r.checks@)),
        r.exit_code == (if r.status == DoctorStatus::Error { 1u8 } else { 0u8 }),
        r.notices@.len() == 0,
{
    let ghost existing = string_views(existing_dirs@);
    let mut checks: Vec<DoctorCheck> = Vec::new();
    let mut a = copy_str(config_path);
    append(&mut a, " exists");
    push_check(&mut checks, check("config-exists", DoctorStatus::Clean, a));
    push_check(
        &mut checks,
        check("config-parses", DoctorStatus::Clean, copy_str("config parses (no unrecognized keys)")),
    );
    if config.record_types.len() == 0 {
        push_check(
            &mut checks,
            check(
                "record-types-declared",
                DoctorStatus::Error,
                copy_str("no record_types declared -- check will never examine anything"),
            ),
        );
    }
    let ghost head = check_views(checks@);
    let names = sorted_type_names(config);
    let ghost nv = string_views(names@);
    let mut k: usize = 0;
    while k < names.len()
        invariant
            k <= names.len(),
            nv == string_views(names@),
            nv == type_names(*config),
            existing == string_views(existing_dirs@),
            check_views(checks@) == head + all_type_checks(nv.take(k as int), *config, existing),
        decreases names.len() - k,
    {
        assert(nv.take(k + 1).drop_last() =~= nv.take(k as int));
        assert(nv.take(k + 1).last() == names@[k as int]@);
        let name = names[k].as_str();
        let ghost before = check_views(checks@);
        match config.type_config(name) {
            Some(t) => {
                if crate::report::contains_string(existing_dirs, t.dir.as_str()) {
                    let mut m = copy_str("record type '");
                    append(&mut m, name);
                    append(&mut m, "' -> ");
                    append(&mut m, t.dir.as_str());
                    append(&mut m, " exists");
                    push_check(&mut checks, check("record-type-dir", DoctorStatus::Clean, m));
                } else {
                    let mut m = copy_str("record type '");
                    append(&mut m, name);
                    append(&mut m, "' declares dir '");
                    append(&mut m, t.dir.as_str());
                    append(&mut m, "', which does not exist");
                    push_check(&mut checks, check("record-type-dir", DoctorStatus::Error, m));
                }
                if t.required_fields.len() == 0 {
                    let mut m = copy_str("record type '");
                    append(&mut m, name);
                    append(
                        &mut m,
                        "' has no required_fields -- field.quality and field.pending will never fire for it",
                    );
                    push_check(&mut checks, check("record-type-required-fields", DoctorStatus::Warn, m));
                }
                assert(check_views(checks@) =~= before + type_checks(name@, *t, existing));
            },
            None => {},
        }
        k += 1;
    }
    assert(nv.take(names.len() as int) =~= nv);
    let c = match ci {
        Err(m) => {
            let mut msg = m;
            append(
                &mut msg,
                " -- cannot tell whether the checker is wired in, which is not the same as it not being",
            );
            check("ci-wired", DoctorStatus::Error, msg)
        },
        Ok(true) => check(
            "ci-wired",
            DoctorStatus::Clean,
            copy_str("a workflow invokes `urzua check` or `make records`"),
        ),
        Ok(false) => {
            let mut msg = copy_str("no workflow in ");
            append(&mut msg, workflows_dir);
            append(
                &mut msg,
                " invokes `urzua check` or `make records` -- a check that exists but is never run reports nothing to anyone",
            );
            check("ci-wired", DoctorStatus::Warn, msg)
        },
    };
    push_check(&mut checks, c);
    let status = worst(&checks);
    let exit_code: u8 = if status == DoctorStatus::Error {
        1
    } else {
        0
    };
    DoctorReport { status, checks, notices: Vec::new(), exit_code }
}

} // verus!
