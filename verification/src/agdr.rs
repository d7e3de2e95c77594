//! The AgDR boundary: which fields an export would drop. Export that drops
//! fields must warn; silently discarding data in a format transform is the
//! failure this project exists to prevent.
use vstd::prelude::*;

verus! {

/// Which agent, running which model, triggered by what.
#[derive(Debug, Clone, PartialEq, Eq)]
pub struct AgentProvenance {
    pub agent: Option<String>,
    pub model: Option<String>,
    pub trigger: Option<String>,
}

/// Fields with no AgDR equivalent.
#[derive(Debug, Clone)]
pub struct LossReport {
    pub dropped_fields: Vec<String>,
}

impl Default for LossReport {
    /// Nothing dropped.
    fn default() -> (r: Self)
        ensures
            r.dropped_fields@.len() == 0,
    {
        LossReport { dropped_fields: Vec::new() }
    }
}

impl LossReport {
    /// Whether the export keeps every field.
    pub fn is_lossless(&self) -> (r: bool)
        ensures
            r == (self.dropped_fields@.len() == 0),
    {
        self.dropped_fields.len() == 0
    }
}

/// An AgDR record that cannot be imported.
#[derive(Debug, Clone)]
pub enum Error {
    Malformed(String),
    MissingField(String),
}

} // verus!
