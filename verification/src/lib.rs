//! Record schema, parsing, and validation rules for a corpus of markdown
//! decision records.
//!
//! Pure: no I/O, no filesystem, no process. Callers read files and hand in
//! content; every function here computes from the values it is given.
use vstd::prelude::*;

pub mod adopt;
pub mod agdr;
pub mod check;
pub mod config;
pub mod corpus;
pub mod doctor;
pub mod document;
pub mod embodiment;
pub mod examined;
pub mod field_state;
pub mod fix;
pub mod gate;
pub mod graph;
pub mod header;
pub mod id;
pub mod migrate;
pub mod order;
pub mod new_record;
pub mod record;
pub mod references;
pub mod report;
pub mod rules;
pub mod text;
pub mod values;
pub mod waiver;
pub mod yaml;

verus! {

/// Presence state of a field.
///
/// Blank, placeholder, and pending are three distinct states, not one.
#[derive(Debug, Clone, Copy, PartialEq, Eq, Structural)]
pub enum FieldState {
    /// Field absent or empty.
    Blank,
    /// Field holds unedited template text (e.g. `name`, `TBD`).
    Placeholder,
    /// Field explicitly marks work not yet done.
    Pending,
    /// Field holds a real value.
    Present,
}

/// A record value outside the vocabulary the engine understands.
#[derive(Debug, Clone)]
pub enum Error {
    UnknownStatus(String),
    UnknownEmbodiment(String),
}

} // verus!
