//! Stable record identifiers and display numbers. Authors never choose an
//! identifier: a record gets a stable, time-ordered, collision-free one at
//! creation with no coordination; the human-facing display number is
//! presentation only.
use crate::text::{chars_of, decimal, decimal_string, decimal_value, string_of, trim, trim_vec};
use vstd::prelude::*;

verus! {

/// The characters of Crockford's base 32, as ULIDs are written.
pub open spec fn crockford(c: char) -> bool {
    ('0' <= c && c <= '9') || ('A' <= c && c <= 'Z' && c != 'I' && c != 'L' && c != 'O' && c != 'U')
}

/// `ulid::Ulid::new().to_string()`: a ULID for the current time and fresh
/// randomness, as text. The contract claims only its shape, which the
/// encoder's source fixes: twenty-six Crockford base-32 characters. Which
/// identifier comes back depends on the clock and on chance.
#[verifier::external_body]
fn fresh_ulid() -> (r: String)
    ensures
        r@.len() == 26,
        forall|i: int| 0 <= i < 26 ==> crockford(#[trigger] r@[i]),
{
    ulid::Ulid::new().to_string()
}

/// Immutable identity of a record. Never reused, never reassigned.
#[derive(Debug, Clone, PartialEq, Eq, PartialOrd, Ord, Hash)]
pub struct StableId(String);

impl View for StableId {
    type V = Seq<char>;

    closed spec fn view(&self) -> Seq<char> {
        self.0@
    }
}

impl StableId {
    /// A fresh identifier: twenty-six Crockford base-32 characters encoding
    /// the current time and fresh randomness. No coordination needed.
    pub fn generate() -> (r: StableId)
        ensures
            r@.len() == 26,
            forall|i: int| 0 <= i < 26 ==> crockford(#[trigger] r@[i]),
    {
        StableId(fresh_ulid())
    }

    /// The identifier's text.
    pub fn as_str(&self) -> (r: &str)
        ensures
            r@ == self@,
    {
        self.0.as_str()
    }
}

/// The message when no identity can be resolved.
pub open spec fn no_identity_message() -> Seq<char> {
    "could not resolve an identity (gh api user, git config user.name both unavailable) -- pass --by explicitly"@
}

/// Who a write is attributed to, by tier: the `gh` login first, then the
/// `git` user name, each trimmed and only when not blank; an explicit name
/// only once neither verified source gave one. `None` where no identity
/// resolves.
pub open spec fn identity_of(
    gh_login: Option<Seq<char>>,
    git_user: Option<Seq<char>>,
    explicit: Option<Seq<char>>,
) -> Option<Seq<char>> {
    if gh_login is Some && trim(gh_login->0).len() > 0 {
        Some(trim(gh_login->0))
    } else if git_user is Some && trim(git_user->0).len() > 0 {
        Some(trim(git_user->0))
    } else {
        explicit
    }
}

/// A verified source always outranks the explicit name: when the `gh`
/// login is not blank, it is the identity whatever name was given; when
/// only the `git` user name is, that is.
pub proof fn lemma_verified_source_outranks_explicit(
    gh_login: Option<Seq<char>>,
    git_user: Option<Seq<char>>,
    one: Option<Seq<char>>,
    other: Option<Seq<char>>,
)
    requires
        (gh_login is Some && trim(gh_login->0).len() > 0) || (git_user is Some && trim(git_user->0).len() > 0),
    ensures
        identity_of(gh_login, git_user, one) == identity_of(gh_login, git_user, other),
        identity_of(gh_login, git_user, one) is Some,
{
}

fn trimmed_nonblank(s: &Option<String>) -> (r: Option<String>)
    ensures
        match r {
            Some(t) => s is Some && t@ == trim(s->0@) && t@.len() > 0,
            None => s is None || trim(s->0@).len() == 0,
        },
{
    match s {
        Some(text) => {
            let t = trim_vec(&chars_of(text.as_str()));
            if t.len() > 0 {
                Some(string_of(&t))
            } else {
                None
            }
        },
        None => None,
    }
}

/// The identity a write is attributed to, from what the `gh` login query
/// printed (`None` when it failed or timed out), what `git config
/// user.name` printed (`None` when it failed), and the name given
/// explicitly. A verified source always outranks the explicit name.
pub fn resolve_identity(
    gh_login: Option<String>,
    git_user: Option<String>,
    explicit: Option<&str>,
) -> (r: Result<String, String>)
    ensures
        match identity_of(
            match gh_login { Some(g) => Some(g@), None => None },
            match git_user { Some(g) => Some(g@), None => None },
            match explicit { Some(e) => Some(e@), None => None },
        ) {
            Some(who) => r is Ok && r->Ok_0@ == who,
            None => r is Err && r->Err_0@ == no_identity_message(),
        },
{
    if let Some(login) = trimmed_nonblank(&gh_login) {
        return Ok(login);
    }
    if let Some(name) = trimmed_nonblank(&git_user) {
        return Ok(name);
    }
    match explicit {
        Some(by) => Ok(by.to_string()),
        None => {
            let msg = "could not resolve an identity (gh api user, git config user.name both unavailable) -- pass --by explicitly";
            proof {
                reveal_strlit("could not resolve an identity (gh api user, git config user.name both unavailable) -- pass --by explicitly");
            }
            Err(msg.to_string())
        },
    }
}

/// Human-facing sequential number, shown zero-padded to four digits.
/// Presentation only: nothing may depend on it.
#[derive(Debug, Clone, Copy, PartialEq, Eq, PartialOrd, Ord)]
pub struct DisplayNumber(pub u32);

/// `n` in decimal, zero-padded to at least `width` digits.
pub open spec fn padded(digits: Seq<char>, width: nat) -> Seq<char>
    decreases width,
{
    if digits.len() >= width {
        digits
    } else {
        seq!['0'] + padded(digits, (width - 1) as nat)
    }
}

impl DisplayNumber {
    /// The number as shown: decimal, zero-padded to four digits.
    pub fn to_string(&self) -> (r: String)
        ensures
            r@ == padded(decimal(self.0 as nat), 4),
    {
        let digits = decimal_string(self.0 as u64);
        let mut out: Vec<char> = Vec::new();
        let mut k: usize = 0;
        let pad: usize = if digits.len() >= 4 {
            0
        } else {
            4 - digits.len()
        };
        while k < pad
            invariant
                k <= pad,
                pad == (if digits@.len() >= 4 { 0 } else { 4 - digits@.len() }),
                out@ == Seq::new(k as nat, |j: int| '0'),
            decreases pad - k,
        {
            out.push('0');
            assert(out@ =~= Seq::new((k + 1) as nat, |j: int| '0'));
            k += 1;
        }
        let ghost zeros = out@;
        let mut j: usize = 0;
        while j < digits.len()
            invariant
                j <= digits.len(),
                out@ == zeros + digits@.take(j as int),
            decreases digits.len() - j,
        {
            out.push(digits[j]);
            assert(digits@.take(j + 1) =~= digits@.take(j as int).push(digits@[j as int]));
            j += 1;
        }
        assert(digits@.take(digits.len() as int) =~= digits@);
        proof {
            lemma_padded(digits@, 4, pad as nat);
        }
        string_of(&out)
    }
}

proof fn lemma_leading_zero(s: Seq<char>)
    ensures
        decimal_value(seq!['0'] + s) == decimal_value(s),
    decreases s.len(),
{
    if s.len() == 0 {
        assert((seq!['0'] + s).drop_last() =~= Seq::<char>::empty());
        assert((seq!['0'] + s).last() == '0');
        assert(decimal_value(Seq::<char>::empty()) == 0);
    } else {
        lemma_leading_zero(s.drop_last());
        assert((seq!['0'] + s).drop_last() =~= seq!['0'] + s.drop_last());
        assert((seq!['0'] + s).last() == s.last());
    }
}

proof fn lemma_padded_value(digits: Seq<char>, width: nat)
    ensures
        decimal_value(padded(digits, width)) == decimal_value(digits),
        padded(digits, width).len() >= width,
        padded(digits, width).len() >= digits.len(),
    decreases width,
{
    if digits.len() < width {
        lemma_padded_value(digits, (width - 1) as nat);
        lemma_leading_zero(padded(digits, (width - 1) as nat));
    }
}

/// A display number is at least four characters wide and reads back as the
/// number it displays: padding adds only leading zeros and never truncates.
pub proof fn lemma_display_number_round_trips(n: u32)
    ensures
        padded(decimal(n as nat), 4).len() >= 4,
        decimal_value(padded(decimal(n as nat), 4)) == n,
        padded(decimal(n as nat), 4).len() >= decimal(n as nat).len(),
{
    lemma_padded_value(decimal(n as nat), 4);
    crate::values::lemma_decimal_digits(n as nat);
}

proof fn lemma_padded(digits: Seq<char>, width: nat, pad: nat)
    requires
        pad == (if digits.len() >= width { 0 } else { width - digits.len() }),
    ensures
        padded(digits, width) =~= Seq::new(pad, |j: int| '0') + digits,
    decreases width,
{
    if digits.len() < width {
        let p2: nat = if digits.len() >= (width - 1) as nat { 0 } else { (width - 1 - digits.len()) as nat };
        lemma_padded(digits, (width - 1) as nat, p2);
        assert(p2 == pad - 1);
        assert(seq!['0'] + (Seq::new(p2, |j: int| '0') + digits) =~= Seq::new(pad, |j: int| '0') + digits);
    }
}

/// A stable identifier that cannot be used.
#[derive(Debug, Clone)]
pub enum Error {
    Malformed(String),
    /// Two records claiming one identity: never auto-resolved.
    Duplicate(String, String, String),
}

} // verus!
