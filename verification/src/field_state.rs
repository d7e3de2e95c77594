//! Blank, placeholder, and pending are three distinct states, not one. A
//! check that treats "unedited template text" the same as "explicitly not
//! applicable" the same as "empty" cannot tell an author who forgot a field
//! from one who filled it in correctly.
use crate::text::{chars_of, contains, contains_exec, lower_seq, lower_vec, seq_eq, trim, trim_vec};
use crate::FieldState;
use vstd::prelude::*;

verus! {

/// Literal, unedited template text. Exact match only (case-insensitive): a
/// real value that happens to contain "name" as a substring is not one.
pub open spec fn is_placeholder_token(lower: Seq<char>) -> bool {
    lower == "name"@ || lower == "name(s)"@ || lower == "yyyy-mm-dd"@ || lower == "tbd"@ || lower
        == "todo"@
}

/// An unedited placeholder reference like `RFC-NNNN`: four literal `n`s in a
/// row is not a real record number in any real value.
pub open spec fn is_placeholder_reference(lower: Seq<char>) -> bool {
    contains(lower, "nnnn"@)
}

/// The state `classify` assigns a value.
pub open spec fn field_state(value: Option<Seq<char>>) -> FieldState {
    match value {
        None => FieldState::Blank,
        Some(v) => {
            let trimmed = trim(v);
            let lower = lower_seq(trimmed);
            if trimmed.len() == 0 {
                FieldState::Blank
            } else if is_placeholder_token(lower) || is_placeholder_reference(lower) {
                FieldState::Placeholder
            } else if contains(lower, "pending"@) || lower == "todo"@ {
                FieldState::Pending
            } else {
                FieldState::Present
            }
        },
    }
}

fn is_placeholder_token_exec(lower: &[char]) -> (r: bool)
    ensures
        r == is_placeholder_token(lower@),
{
    let a = chars_of("name");
    let b = chars_of("name(s)");
    let c = chars_of("yyyy-mm-dd");
    let d = chars_of("tbd");
    let e = chars_of("todo");
    seq_eq(lower, &a) || seq_eq(lower, &b) || seq_eq(lower, &c) || seq_eq(lower, &d) || seq_eq(
        lower,
        &e,
    )
}

/// Classify a header field's value. `None` (the field is absent entirely) is
/// `Blank`, same as an empty string -- absence and emptiness are the same
/// defect from a reader's point of view. An em dash is this corpus's explicit
/// "not applicable" and is `Present`.
pub fn classify(value: Option<&str>) -> (r: FieldState)
    ensures
        r == field_state(match value {
            Some(v) => Some(v@),
            None => None,
        }),
{
    let value = match value {
        Some(v) => v,
        None => return FieldState::Blank,
    };
    let cs = chars_of(value);
    let trimmed = trim_vec(&cs);
    if trimmed.len() == 0 {
        return FieldState::Blank;
    }
    let lower = lower_vec(&trimmed);
    let nnnn = chars_of("nnnn");
    if is_placeholder_token_exec(&lower) || contains_exec(&lower, &nnnn) {
        return FieldState::Placeholder;
    }
    let pending = chars_of("pending");
    let todo = chars_of("todo");
    if contains_exec(&lower, &pending) || seq_eq(&lower, &todo) {
        return FieldState::Pending;
    }
    FieldState::Present
}

/// A value that was once this corpus's own placeholder convention and was
/// retired: `(project lead)`. `classify` keeps calling it `Present` -- it is
/// a plausible real value in a corpus that never used the convention -- and
/// `field.quality` flags it, so a regression back to it is caught.
pub open spec fn is_retired_placeholder(value: Option<Seq<char>>) -> bool {
    match value {
        Some(v) => lower_seq(trim(v)) == "(project lead)"@,
        None => false,
    }
}

/// Whether `value` is a retired placeholder.
pub fn retired_placeholder(value: Option<&str>) -> (r: bool)
    ensures
        r == is_retired_placeholder(match value {
            Some(v) => Some(v@),
            None => None,
        }),
{
    match value {
        Some(v) => {
            let cs = chars_of(v);
            let trimmed = trim_vec(&cs);
            let lower = lower_vec(&trimmed);
            let retired = chars_of("(project lead)");
            seq_eq(&lower, &retired)
        },
        None => false,
    }
}

} // verus!
