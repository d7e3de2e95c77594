//! A record's `Realized-by` field, categorized: `spec:`, `code:` and `test:`
//! locators, and the embodiment tier they compute to.
use crate::text::{chars_of, seq_eq, split_char, split_char_exec, split_once, split_once_exec, string_of, trim, trim_vec, views};
use vstd::prelude::*;

verus! {

/// The locators of a `Realized-by` value, by category.
#[derive(Debug, Clone, PartialEq, Eq)]
pub struct RealizedBy {
    pub spec: Vec<String>,
    pub code: Vec<String>,
    pub test: Vec<String>,
}

/// A parsed value as three sequences of locators.
pub struct RealizedByView {
    pub spec: Seq<Seq<char>>,
    pub code: Seq<Seq<char>>,
    pub test: Seq<Seq<char>>,
}

impl View for RealizedBy {
    type V = RealizedByView;

    open spec fn view(&self) -> RealizedByView {
        RealizedByView {
            spec: self.spec@.map_values(|s: String| s@),
            code: self.code@.map_values(|s: String| s@),
            test: self.test@.map_values(|s: String| s@),
        }
    }
}

/// The category prefix and locator of one segment: `prefix: locator`, both
/// trimmed; a segment with no `:` carries none.
pub open spec fn segment_parts(segment: Seq<char>) -> Option<(Seq<char>, Seq<char>)> {
    match split_once(trim(segment), ':') {
        Some((p, l)) => Some((trim(p), trim(l))),
        None => None,
    }
}

/// The parse of comma-separated segments; an unrecognized prefix is
/// dropped, since this field's closure is not what the parse is for.
pub open spec fn parse_segments(segments: Seq<Seq<char>>) -> RealizedByView
    decreases segments.len(),
{
    if segments.len() == 0 {
        RealizedByView { spec: Seq::empty(), code: Seq::empty(), test: Seq::empty() }
    } else {
        let r = parse_segments(segments.drop_last());
        match segment_parts(segments.last()) {
            Some((p, l)) => if p == "spec"@ {
                RealizedByView { spec: r.spec.push(l), ..r }
            } else if p == "code"@ {
                RealizedByView { code: r.code.push(l), ..r }
            } else if p == "test"@ {
                RealizedByView { test: r.test.push(l), ..r }
            } else {
                r
            },
            None => r,
        }
    }
}

/// The parse of a `Realized-by` value.
pub open spec fn realized(value: Seq<char>) -> RealizedByView {
    parse_segments(split_char(value, ','))
}

/// Parse a `Realized-by` value into its three categories.
pub fn parse_realized_by(value: &str) -> (r: RealizedBy)
    ensures
        r@ == realized(value@),
{
    let cs = chars_of(value);
    let segments = split_char_exec(&cs, ',');
    let ghost sv = views(segments@);
    let mut r = RealizedBy { spec: Vec::new(), code: Vec::new(), test: Vec::new() };
    let spec_word = vec!['s', 'p', 'e', 'c'];
    let code_word = vec!['c', 'o', 'd', 'e'];
    let test_word = vec!['t', 'e', 's', 't'];
    assert(spec_word@ =~= "spec"@) by {
        reveal_strlit("spec");
    }
    assert(code_word@ =~= "code"@) by {
        reveal_strlit("code");
    }
    assert(test_word@ =~= "test"@) by {
        reveal_strlit("test");
    }
    let mut i: usize = 0;
    assert(r@.spec =~= Seq::<Seq<char>>::empty());
    assert(r@.code =~= Seq::<Seq<char>>::empty());
    assert(r@.test =~= Seq::<Seq<char>>::empty());
    assert(sv.take(0) =~= Seq::<Seq<char>>::empty());
    while i < segments.len()
        invariant
            i <= segments.len(),
            sv == views(segments@),
            sv == split_char(value@, ','),
            spec_word@ == "spec"@,
            code_word@ == "code"@,
            test_word@ == "test"@,
            r@ == parse_segments(sv.take(i as int)),
        decreases segments.len() - i,
    {
        assert(sv.take(i + 1).drop_last() =~= sv.take(i as int));
        assert(sv.take(i + 1).last() == segments@[i as int]@);
        let seg = trim_vec(&segments[i]);
        match split_once_exec(&seg, ':') {
            Some((p, l)) => {
                let prefix = trim_vec(&p);
                let locator = string_of(&trim_vec(&l));
                let ghost before = r@;
                if seq_eq(&prefix, &spec_word) {
                    r.spec.push(locator);
                    assert(r@.spec =~= before.spec.push(locator@));
                    assert(r@ == RealizedByView { spec: before.spec.push(locator@), ..before });
                } else if seq_eq(&prefix, &code_word) {
                    r.code.push(locator);
                    assert(r@.code =~= before.code.push(locator@));
                    assert(r@ == RealizedByView { code: before.code.push(locator@), ..before });
                } else if seq_eq(&prefix, &test_word) {
                    r.test.push(locator);
                    assert(r@.test =~= before.test.push(locator@));
                    assert(r@ == RealizedByView { test: before.test.push(locator@), ..before });
                }
            },
            None => {},
        }
        i += 1;
    }
    assert(sv.take(segments.len() as int) =~= sv);
    r
}

/// Every locator across the three categories: `spec`, then `code`, then
/// `test`.
pub open spec fn locators(v: RealizedByView) -> Seq<Seq<char>> {
    v.spec + v.code + v.test
}

/// Every locator path a `Realized-by` value names, across all three
/// categories.
pub fn realized_by_locator_paths(value: &str) -> (r: Vec<String>)
    ensures
        r@.map_values(|s: String| s@) == locators(realized(value@)),
{
    let parsed = parse_realized_by(value);
    let mut r = parsed.spec;
    let mut code = parsed.code;
    let mut test = parsed.test;
    r.append(&mut code);
    r.append(&mut test);
    assert(r@.map_values(|s: String| s@) =~= locators(realized(value@)));
    r
}

/// The embodiment tier: drift overrides every tier; otherwise the highest
/// category with a locator, `test` over `code` over `spec`.
pub open spec fn embodiment(v: RealizedByView, drifted: bool) -> Seq<char> {
    if drifted {
        "Drift detected"@
    } else if v.test.len() > 0 {
        "Verified"@
    } else if v.code.len() > 0 {
        "Implemented"@
    } else if v.spec.len() > 0 {
        "Specified"@
    } else {
        "Not started"@
    }
}

/// The tier drift and each category decide on their own: drift overrides
/// everything; without drift, any `test` locator makes the record
/// Verified, whatever else it lists; `code` without `test` makes it
/// Implemented; `spec` alone makes it Specified; no locator at all leaves
/// it Not started.
pub proof fn lemma_embodiment_tiers(v: RealizedByView, drifted: bool)
    ensures
        drifted ==> embodiment(v, drifted) == "Drift detected"@,
        !drifted && v.test.len() > 0 ==> embodiment(v, drifted) == "Verified"@,
        !drifted && v.test.len() == 0 && v.code.len() > 0 ==> embodiment(v, drifted) == "Implemented"@,
        !drifted && v.test.len() == 0 && v.code.len() == 0 && v.spec.len() > 0 ==> embodiment(v, drifted)
            == "Specified"@,
        !drifted && v.test.len() == 0 && v.code.len() == 0 && v.spec.len() == 0 ==> embodiment(v, drifted)
            == "Not started"@,
{
}

/// The embodiment tier a parse computes to.
pub fn compute_embodiment(realized_by: &RealizedBy, drifted: bool) -> (r: &'static str)
    ensures
        r@ == embodiment(realized_by@, drifted),
{
    if drifted {
        "Drift detected"
    } else if realized_by.test.len() > 0 {
        "Verified"
    } else if realized_by.code.len() > 0 {
        "Implemented"
    } else if realized_by.spec.len() > 0 {
        "Specified"
    } else {
        "Not started"
    }
}

} // verus!
