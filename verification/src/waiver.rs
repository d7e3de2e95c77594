//! A waiver is a first-class record: reviewable, authored, with a required
//! reason and an optional expiry -- never a config-level ignore list. A
//! waived finding is listed, never omitted; `status`/`blocking` are computed
//! from non-waived findings only.
use crate::header::get_reserved_spec;
use crate::record::Record;
use crate::report::{opt_view, Finding, FindingView};
use crate::text::{chars_of, is_digit, is_digit_char, seq_eq, str_eq};
use vstd::prelude::*;

verus! {

#[derive(Debug, Clone, PartialEq, Eq)]
pub struct Waiver {
    pub id: String,
    pub rule: String,
    /// A file path, or `"*"` for every file the rule examines.
    pub scope: String,
    /// `YYYY-MM-DD`. `None` means permanent.
    pub expires: Option<String>,
}

/// `YYYY-MM-DD` by shape: ten characters, hyphens at 4 and 7, digits
/// elsewhere. Calendar validity (a 31st of February) is deliberately
/// unchecked: it still orders correctly against a real date.
pub open spec fn iso_date(s: Seq<char>) -> bool {
    &&& s.len() == 10
    &&& s[4] == '-'
    &&& s[7] == '-'
    &&& forall|i: int| 0 <= i < 10 && i != 4 && i != 7 ==> is_digit_char(#[trigger] s[i])
}

/// Lexical (code point) order, the order `str`'s `<=` uses.
pub open spec fn lex_le(a: Seq<char>, b: Seq<char>) -> bool
    decreases a.len(),
{
    if a.len() == 0 {
        true
    } else if b.len() == 0 {
        false
    } else if a[0] < b[0] {
        true
    } else if a[0] > b[0] {
        false
    } else {
        lex_le(a.drop_first(), b.drop_first())
    }
}

/// `lex_le` is a total order on strings.
pub proof fn lemma_lex_le_total_order(a: Seq<char>, b: Seq<char>, c: Seq<char>)
    ensures
        lex_le(a, a),
        lex_le(a, b) || lex_le(b, a),
        lex_le(a, b) && lex_le(b, a) ==> a == b,
        lex_le(a, b) && lex_le(b, c) ==> lex_le(a, c),
    decreases a.len(),
{
    if a.len() > 0 {
        lemma_lex_le_total_order(a.drop_first(), b.drop_first(), c.drop_first());
        if b.len() > 0 && a[0] == b[0] && lex_le(a, b) && lex_le(b, a) {
            assert(a.drop_first() == b.drop_first());
            assert(a =~= seq![a[0]] + a.drop_first());
            assert(b =~= seq![b[0]] + b.drop_first());
        }
    } else if b.len() == 0 && lex_le(b, a) {
        assert(a =~= b);
    }
}

pub fn lex_le_exec(a: &[char], b: &[char]) -> (r: bool)
    ensures
        r == lex_le(a@, b@),
{
    let mut i: usize = 0;
    assert(a@.skip(0) == a@ && b@.skip(0) == b@);
    loop
        invariant
            i <= a.len(),
            i <= b.len(),
            lex_le(a@, b@) == lex_le(a@.skip(i as int), b@.skip(i as int)),
        decreases a.len() - i,
    {
        if i == a.len() {
            return true;
        }
        if i == b.len() {
            return false;
        }
        if a[i] < b[i] {
            return true;
        }
        if a[i] > b[i] {
            return false;
        }
        assert(a@.skip(i as int).drop_first() =~= a@.skip(i + 1));
        assert(b@.skip(i as int).drop_first() =~= b@.skip(i + 1));
        i += 1;
    }
}

pub fn is_iso_date(value: &str) -> (r: bool)
    ensures
        r == iso_date(value@),
{
    let s = chars_of(value);
    if s.len() != 10 || s[4] != '-' || s[7] != '-' {
        return false;
    }
    let mut i: usize = 0;
    while i < 10
        invariant
            s@ == value@,
            s@.len() == 10,
            i <= 10,
            forall|k: int| 0 <= k < i && k != 4 && k != 7 ==> is_digit_char(#[trigger] s@[k]),
        decreases 10 - i,
    {
        if i != 4 && i != 7 && !is_digit(s[i]) {
            assert(!is_digit_char(s@[i as int]));
            return false;
        }
        i += 1;
    }
    true
}

impl Waiver {
    /// Whether the waiver still applies on `today`.
    pub open spec fn active_spec(&self, today: Seq<char>) -> bool {
        match self.expires {
            None => true,
            Some(e) => iso_date(e@) && lex_le(today, e@),
        }
    }

    /// Whether the waiver names this finding's rule and file.
    pub open spec fn covers_spec(&self, f: FindingView) -> bool {
        &&& self.rule@ == f.rule
        &&& (self.scope@ == seq!['*'] || f.file == self.scope@)
    }

    /// A waiver with a passed expiry is not a waiver. The comparison is
    /// lexical, which only holds once both sides are `YYYY-MM-DD`: a
    /// non-date expiry expires immediately instead of suppressing forever.
    pub fn is_active(&self, today: &str) -> (r: bool)
        ensures
            r == self.active_spec(today@),
    {
        match &self.expires {
            None => true,
            Some(expires) => {
                let t = chars_of(today);
                let e = chars_of(expires.as_str());
                is_iso_date(expires.as_str()) && lex_le_exec(&t, &e)
            },
        }
    }

    fn covers(&self, finding: &Finding) -> (r: bool)
        ensures
            r == self.covers_spec(finding@),
    {
        if !str_eq(self.rule.as_str(), finding.rule.as_str()) {
            return false;
        }
        let star = vec!['*'];
        assert(star@ =~= seq!['*']);
        let scope = chars_of(self.scope.as_str());
        seq_eq(&scope, &star) || str_eq(finding.file.as_str(), self.scope.as_str())
    }
}

/// The waivers a record list declares: every `waiver` record carrying both
/// a `Rule` and a `Scope` (read as reserved keys), in record order.
pub open spec fn loaded_waivers(records: Seq<Record>) -> Seq<(Seq<char>, Seq<char>, Seq<char>, Option<Seq<char>>)>
    decreases records.len(),
{
    if records.len() == 0 {
        Seq::empty()
    } else {
        let w = loaded_waivers(records.drop_last());
        let r = records.last();
        let fs = r.header.fields_v();
        if r.record_type@ == "waiver"@ && get_reserved_spec(fs, "Rule"@) is Some && get_reserved_spec(fs, "Scope"@) is Some {
            w.push((r.path@, get_reserved_spec(fs, "Rule"@)->0, get_reserved_spec(fs, "Scope"@)->0, get_reserved_spec(fs, "Expires"@)))
        } else {
            w
        }
    }
}

/// The plain values of each waiver.
pub open spec fn waiver_views(ws: Seq<Waiver>) -> Seq<(Seq<char>, Seq<char>, Seq<char>, Option<Seq<char>>)> {
    ws.map_values(|w: Waiver| waiver_view(w))
}

pub open spec fn waiver_view(w: Waiver) -> (Seq<char>, Seq<char>, Seq<char>, Option<Seq<char>>) {
    (w.id@, w.rule@, w.scope@, opt_view(w.expires))
}

/// Parse waiver records out of the discovered corpus. A waiver missing
/// `Rule` or `Scope` is skipped rather than crashing the run: an
/// un-parseable waiver simply waives nothing.
pub fn load_waivers(records: &[Record]) -> (r: Vec<Waiver>)
    ensures
        r@.map_values(|w: Waiver| waiver_view(w)) == loaded_waivers(records@),
{
    let mut out: Vec<Waiver> = Vec::new();
    let mut i: usize = 0;
    while i < records.len()
        invariant
            i <= records.len(),
            out@.map_values(|w: Waiver| waiver_view(w)) == loaded_waivers(records@.take(i as int)),
        decreases records.len() - i,
    {
        assert(records@.take(i + 1).drop_last() =~= records@.take(i as int));
        assert(records@.take(i + 1).last() == records@[i as int]);
        let r = &records[i];
        if str_eq(r.record_type.as_str(), "waiver") {
            match (r.header.get_reserved("Rule"), r.header.get_reserved("Scope")) {
                (Some(rule), Some(scope)) => {
                    let expires = match r.header.get_reserved("Expires") {
                        Some(e) => Some(e.to_owned()),
                        None => None,
                    };
                    let w = Waiver {
                        id: r.path.clone(),
                        rule: rule.to_owned(),
                        scope: scope.to_owned(),
                        expires,
                    };
                    let ghost before = out@.map_values(|w: Waiver| waiver_view(w));
                    out.push(w);
                    assert(out@.map_values(|w: Waiver| waiver_view(w)) =~= before.push(waiver_view(w)));
                },
                _ => {},
            }
        }
        i += 1;
    }
    assert(records@.take(records@.len() as int) == records@);
    out
}

/// The first waiver in `ws` that is active on `today` and covers `f`.
pub open spec fn covering(ws: Seq<Waiver>, f: FindingView, today: Seq<char>) -> Option<int>
    decreases ws.len(),
{
    if ws.len() == 0 {
        None
    } else {
        match covering(ws.drop_last(), f, today) {
            Some(i) => Some(i),
            None => if ws.last().active_spec(today) && ws.last().covers_spec(f) {
                Some(ws.len() - 1)
            } else {
                None
            },
        }
    }
}

pub proof fn lemma_covering(ws: Seq<Waiver>, f: FindingView, today: Seq<char>)
    ensures
        covering(ws, f, today) matches Some(i) ==> 0 <= i < ws.len() && ws[i].active_spec(today)
            && ws[i].covers_spec(f) && forall|k: int|
            0 <= k < i ==> !(ws[k].active_spec(today) && ws[k].covers_spec(f)),
        covering(ws, f, today) is None ==> forall|k: int|
            0 <= k < ws.len() ==> !(ws[k].active_spec(today) && ws[k].covers_spec(f)),
    decreases ws.len(),
{
    if ws.len() > 0 {
        lemma_covering(ws.drop_last(), f, today);
        assert forall|k: int| 0 <= k < ws.len() - 1 implies ws.drop_last()[k] == ws[k] by {}
    }
}

/// A finding after `apply_waivers`: marked with the first active covering
/// waiver's id, or left exactly as it was.
pub open spec fn waived(ws: Seq<Waiver>, f: FindingView, today: Seq<char>) -> FindingView {
    match covering(ws, f, today) {
        Some(i) => FindingView { waived: Some(ws[i].id@), ..f },
        None => f,
    }
}

/// Waiving annotates and never removes or rewrites: a waived finding keeps
/// its rule, severity, file, line and message, and it is marked exactly when
/// some waiver active on `today` covers it.
pub proof fn lemma_waiving_only_marks(ws: Seq<Waiver>, f: FindingView, today: Seq<char>)
    ensures
        waived(ws, f, today).rule == f.rule,
        waived(ws, f, today).severity == f.severity,
        waived(ws, f, today).file == f.file,
        waived(ws, f, today).line == f.line,
        waived(ws, f, today).message == f.message,
        (waived(ws, f, today).waived != f.waived) ==> (exists|k: int|
            0 <= k < ws.len() && #[trigger] ws[k].active_spec(today) && ws[k].covers_spec(f)),
        (exists|k: int| 0 <= k < ws.len() && #[trigger] ws[k].active_spec(today) && ws[k].covers_spec(f))
            ==> waived(ws, f, today).waived is Some,
{
    lemma_covering(ws, f, today);
}

/// A waiver whose expiry is not a `YYYY-MM-DD` date is never active, on any
/// day: an expiry nobody can reach must not suppress forever. A waiver with
/// no expiry is always active.
pub proof fn lemma_expiry_must_be_a_date(w: Waiver, today: Seq<char>)
    ensures
        w.expires matches Some(e) && !iso_date(e@) ==> !w.active_spec(today),
        w.expires is None ==> w.active_spec(today),
{
}

/// Mark each finding covered by an active waiver. Findings are never
/// removed -- only annotated -- and nothing but `waived` changes.
pub fn apply_waivers(findings: &mut Vec<Finding>, waivers: &[Waiver], today: &str)
    ensures
        final(findings)@.len() == old(findings)@.len(),
        forall|i: int|
            0 <= i < final(findings)@.len() ==> #[trigger] final(findings)@[i]@ == waived(
                waivers@,
                old(findings)@[i]@,
                today@,
            ),
{
    let ghost orig = findings@;
    let mut i: usize = 0;
    while i < findings.len()
        invariant
            findings@.len() == orig.len(),
            i <= findings.len(),
            forall|k: int| 0 <= k < i ==> #[trigger] findings@[k]@ == waived(waivers@, orig[k]@, today@),
            forall|k: int| i <= k < findings@.len() ==> #[trigger] findings@[k] == orig[k],
        decreases findings.len() - i,
    {
        let mut j: usize = 0;
        let mut hit: Option<usize> = None;
        proof {
            lemma_covering(waivers@, orig[i as int]@, today@);
        }
        while j < waivers.len()
            invariant
                findings@.len() == orig.len(),
                i < findings.len(),
                findings@[i as int] == orig[i as int],
                j <= waivers.len(),
                hit is None ==> forall|k: int|
                    0 <= k < j ==> !(waivers@[k].active_spec(today@) && waivers@[k].covers_spec(
                        orig[i as int]@,
                    )),
                hit matches Some(h) ==> covering(waivers@, orig[i as int]@, today@) == Some(h as int),
            decreases waivers.len() - j,
        {
            if hit.is_none() && waivers[j].is_active(today) && waivers[j].covers(&findings[i]) {
                proof {
                    lemma_covering(waivers@, orig[i as int]@, today@);
                }
                hit = Some(j);
            }
            j += 1;
        }
        match hit {
            Some(h) => {
                let f = &findings[i];
                let nf = Finding {
                    rule: f.rule.clone(),
                    severity: f.severity,
                    file: f.file.clone(),
                    line: f.line,
                    message: f.message.clone(),
                    waived: Some(waivers[h].id.clone()),
                };
                findings.set(i, nf);
            },
            None => {},
        }
        i += 1;
    }
}

} // verus!
