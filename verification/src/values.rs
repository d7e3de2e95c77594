//! Newtypes for values drawn from the adopter's declared vocabulary: the
//! comparison rule lives in the type, not rediscovered at each call site.
use crate::text::{digit_char, digit_value, all_digits, chars_of, decimal, decimal_string, decimal_value, is_digit_char, parse_u64, parses_u64, slice_vec, str_eq, string_of};
use vstd::prelude::*;

verus! {

/// A field name as the adopter wrote it. Compares exactly: two names that
/// differ only in case are two names.
#[derive(Debug, Clone, PartialEq, Eq, Hash, PartialOrd, Ord)]
pub struct FieldName(String);

impl View for FieldName {
    type V = Seq<char>;

    closed spec fn view(&self) -> Seq<char> {
        self.0@
    }
}

impl FieldName {
    pub fn new(s: &str) -> (r: FieldName)
        ensures
            r@ == s@,
    {
        FieldName(s.to_owned())
    }

    pub fn as_str(&self) -> (r: &str)
        ensures
            r@ == self@,
    {
        self.0.as_str()
    }
}

/// A record identifier, compared by numeric value: `ADR-0034` and `ADR-34`
/// are one id. Only the normalized form is kept, so there is no
/// un-normalized form to accidentally compare.
#[derive(Debug, Clone, PartialEq, Eq, Hash, PartialOrd, Ord)]
pub struct RecordId {
    normalized: String,
}

impl View for RecordId {
    type V = Seq<char>;

    closed spec fn view(&self) -> Seq<char> {
        self.normalized@
    }
}

/// The position of the last `c` in `s` (`str::rfind` for one character).
pub open spec fn rfind_char(s: Seq<char>, c: char) -> Option<int>
    decreases s.len(),
{
    if s.len() == 0 {
        None
    } else if s.last() == c {
        Some(s.len() - 1)
    } else {
        rfind_char(s.drop_last(), c)
    }
}

/// What `str::parse::<u64>` reads from `s`: an optional leading `+`, then
/// one or more ASCII digits whose value fits in 64 bits.
pub open spec fn u64_text(s: Seq<char>) -> Option<nat> {
    let digits = if s.len() > 0 && s[0] == '+' {
        s.drop_first()
    } else {
        s
    };
    if parses_u64(digits) {
        Some(decimal_value(digits))
    } else {
        None
    }
}

/// Numeric-value normalization of an id like `ADR-0034`: the part after the
/// last hyphen, when it parses as a `u64`, is rewritten without padding.
/// Anything else is kept unchanged.
pub open spec fn normalize(id: Seq<char>) -> Seq<char> {
    match rfind_char(id, '-') {
        Some(i) => match u64_text(id.skip(i + 1)) {
            Some(n) => id.take(i) + seq!['-'] + decimal(n),
            None => id,
        },
        None => id,
    }
}

pub proof fn lemma_rfind_char(s: Seq<char>, c: char)
    ensures
        rfind_char(s, c) matches Some(i) ==> 0 <= i < s.len() && s[i] == c && forall|k: int|
            i < k < s.len() ==> s[k] != c,
        rfind_char(s, c) is None ==> forall|k: int| 0 <= k < s.len() ==> s[k] != c,
    decreases s.len(),
{
    if s.len() > 0 && s.last() != c {
        lemma_rfind_char(s.drop_last(), c);
        assert forall|k: int| 0 <= k < s.len() - 1 implies s.drop_last()[k] == s[k] by {}
    }
}

pub proof fn lemma_rfind_char_is(s: Seq<char>, c: char, i: int)
    requires
        0 <= i < s.len(),
        s[i] == c,
        forall|k: int| i < k < s.len() ==> s[k] != c,
    ensures
        rfind_char(s, c) == Some(i),
    decreases s.len(),
{
    if s.last() != c {
        lemma_rfind_char_is(s.drop_last(), c, i);
    }
}

/// `str::rfind` for one character.
pub fn rfind_char_exec(s: &[char], c: char) -> (r: Option<usize>)
    ensures
        r matches Some(i) ==> rfind_char(s@, c) == Some(i as int),
        r is None ==> rfind_char(s@, c) is None,
{
    let mut j = s.len();
    while j > 0
        invariant
            j <= s.len(),
            forall|k: int| j <= k < s.len() ==> s@[k] != c,
        decreases j,
    {
        if s[j - 1] == c {
            proof {
                lemma_rfind_char_is(s@, c, j - 1);
            }
            return Some(j - 1);
        }
        j -= 1;
    }
    proof {
        lemma_rfind_char(s@, c);
        if rfind_char(s@, c) is Some {
        }
    }
    None
}

/// `str::parse::<u64>`.
pub fn parse_u64_text(s: &[char]) -> (r: Option<u64>)
    ensures
        r matches Some(v) ==> u64_text(s@) == Some(v as nat),
        r is None ==> u64_text(s@) is None,
{
    if s.len() > 0 && s[0] == '+' {
        let rest = slice_vec(s, 1, s.len());
        assert(rest@ =~= s@.drop_first());
        parse_u64(&rest)
    } else {
        parse_u64(s)
    }
}

pub fn normalize_exec(id: &[char]) -> (r: Vec<char>)
    ensures
        r@ == normalize(id@),
{
    match rfind_char_exec(id, '-') {
        Some(i) => {
            proof {
                lemma_rfind_char(id@, '-');
                assert(i < id@.len());
                assert(id@.len() == id.len());
            }
            let number = slice_vec(id, i + 1, id.len());
            assert(number@ =~= id@.skip(i + 1));
            match parse_u64_text(&number) {
                Some(n) => {
                    let mut r = slice_vec(id, 0, i);
                    r.push('-');
                    let digits = decimal_string(n);
                    let ghost before = r@;
                    let mut k: usize = 0;
                    while k < digits.len()
                        invariant
                            k <= digits.len(),
                            r@ == before + digits@.take(k as int),
                        decreases digits.len() - k,
                    {
                        r.push(digits[k]);
                        assert(digits@.take(k + 1) == digits@.take(k as int).push(digits@[k as int]));
                        k += 1;
                    }
                    assert(digits@.take(digits@.len() as int) == digits@);
                    assert(r@ =~= id@.take(i as int) + seq!['-'] + decimal(n as nat));
                    r
                },
                None => slice_vec(id, 0, id.len()),
            }
        },
        None => slice_vec(id, 0, id.len()),
    }
}

impl RecordId {
    pub fn new(raw: &str) -> (r: RecordId)
        ensures
            r@ == normalize(raw@),
    {
        let cs = chars_of(raw);
        let n = normalize_exec(&cs);
        RecordId { normalized: string_of(&n) }
    }

    pub fn as_str(&self) -> (r: &str)
        ensures
            r@ == self@,
    {
        self.normalized.as_str()
    }

    /// Whether two ids name one record.
    pub fn same(&self, other: &RecordId) -> (r: bool)
        ensures
            r == (self@ == other@),
    {
        str_eq(self.normalized.as_str(), other.normalized.as_str())
    }
}

pub proof fn lemma_decimal_digits(n: nat)
    ensures
        decimal(n).len() > 0,
        all_digits(decimal(n)),
        decimal_value(decimal(n)) == n,
    decreases n,
{
    lemma_digit_char(n % 10);
    if n >= 10 {
        lemma_decimal_digits(n / 10);
        let d = decimal(n / 10);
        assert(decimal(n).drop_last() =~= d);
        assert(decimal(n).last() == digit_char(n % 10));
        assert(decimal_value(decimal(n)) == decimal_value(d) * 10 + digit_value(digit_char(n % 10)));
        assert(n == (n / 10) * 10 + n % 10);
        assert forall|k: int| 0 <= k < decimal(n).len() implies is_digit_char(decimal(n)[k]) by {
            if k < d.len() {
                assert(decimal(n)[k] == d[k]);
            }
        }
    } else {
        lemma_digit_char(n);
        assert(decimal(n).drop_last() =~= Seq::<char>::empty());
        assert(decimal_value(Seq::<char>::empty()) == 0);
        assert(decimal_value(decimal(n)) == decimal_value(decimal(n).drop_last()) * 10 + digit_value(decimal(n).last()));
    }
}

pub proof fn lemma_digit_char(d: nat)
    requires
        d < 10,
    ensures
        is_digit_char(digit_char(d)),
        digit_value(digit_char(d)) == d,
{
    let c = digit_char(d);
    assert(c as u32 == 48 + d);
}

/// A decimal rendering never holds a hyphen.
pub proof fn lemma_decimal_no_hyphen(n: nat)
    ensures
        forall|k: int| 0 <= k < decimal(n).len() ==> decimal(n)[k] != '-',
{
    lemma_decimal_digits(n);
}

/// Normalizing an id twice is normalizing it once.
pub proof fn lemma_normalize_idempotent(id: Seq<char>)
    ensures
        normalize(normalize(id)) == normalize(id),
{
    lemma_rfind_char(id, '-');
    match rfind_char(id, '-') {
        Some(i) => match u64_text(id.skip(i + 1)) {
            Some(n) => {
                let r = id.take(i) + seq!['-'] + decimal(n);
                lemma_decimal_digits(n);
                lemma_decimal_no_hyphen(n);
                let j = i;
                assert(r[j] == '-');
                assert forall|k: int| j < k < r.len() implies r[k] != '-' by {
                    assert(r[k] == decimal(n)[k - j - 1]);
                }
                lemma_rfind_char_is(r, '-', j);
                assert(r.skip(j + 1) =~= decimal(n));
                assert(decimal(n)[0] != '+');
                assert(u64_text(decimal(n)) == Some(n));
                assert(r.take(j) =~= id.take(i));
            },
            None => {},
        },
        None => {},
    }
}

/// `ADR-0034` and `ADR-34` are one id: a prefix followed by two digit
/// strings of the same value normalizes to one form.
pub proof fn lemma_padding_is_not_identity(prefix: Seq<char>, a: Seq<char>, b: Seq<char>)
    requires
        parses_u64(a),
        parses_u64(b),
        decimal_value(a) == decimal_value(b),
    ensures
        normalize(prefix + seq!['-'] + a) == normalize(prefix + seq!['-'] + b),
{
    lemma_normalize_of_number(prefix, a);
    lemma_normalize_of_number(prefix, b);
}

pub proof fn lemma_normalize_of_number(prefix: Seq<char>, a: Seq<char>)
    requires
        parses_u64(a),
    ensures
        normalize(prefix + seq!['-'] + a) == prefix + seq!['-'] + decimal(decimal_value(a)),
{
    let s = prefix + seq!['-'] + a;
    let j = prefix.len() as int;
    assert(s[j] == '-');
    assert forall|k: int| j < k < s.len() implies s[k] != '-' by {
        assert(s[k] == a[k - j - 1]);
        assert(is_digit_char(a[k - j - 1]));
    }
    lemma_rfind_char_is(s, '-', j);
    assert(s.skip(j + 1) =~= a);
    assert(is_digit_char(a[0]));
    assert(s.take(j) =~= prefix);
}

} // verus!
