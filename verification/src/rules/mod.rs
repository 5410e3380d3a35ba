use vstd::prelude::*;

pub mod shadow_storage;
pub mod unused_variable;

verus! {

/// How serious a rule violation is.
#[derive(Debug, Clone, Copy, PartialEq, Eq, Structural)]
pub enum Severity {
    Warning,
}

/// A textual edit: replace the text from (`start_line`, `start_column`) up to
/// (`end_line`, `end_column`) with `replacement`. Lines count from 1, columns count
/// characters from 0 within their line.
#[derive(Debug, Clone)]
pub struct Patch {
    pub start_line: usize,
    pub start_column: usize,
    pub end_line: usize,
    pub end_column: usize,
    pub replacement: String,
    pub description: String,
}

/// One finding of a rule, with an optional suggestion and the patches that fix it.
#[derive(Debug, Clone)]
pub struct RuleViolation {
    pub rule_name: String,
    pub severity: Severity,
    pub message: String,
    pub location: String,
    pub suggestion: Option<String>,
    pub patches: Vec<Patch>,
}

impl RuleViolation {
    /// A violation of rule `rule_name` with no suggestion and no patches.
    pub fn new(rule_name: &str, severity: Severity, message: String, location: String) -> (v:
        RuleViolation)
        ensures
            v.rule_name@ == rule_name@,
            v.severity == severity,
            v.message == message,
            v.location == location,
            v.suggestion is None,
            v.patches@.len() == 0,
    {
        RuleViolation {
            rule_name: rule_name.to_owned(),
            severity,
            message,
            location,
            suggestion: None,
            patches: Vec::new(),
        }
    }

    /// The same violation, carrying `suggestion`.
    pub fn with_suggestion(self, suggestion: String) -> (v: RuleViolation)
        ensures
            v.rule_name == self.rule_name,
            v.severity == self.severity,
            v.message == self.message,
            v.location == self.location,
            v.suggestion == Some(suggestion),
            v.patches == self.patches,
    {
        RuleViolation { suggestion: Some(suggestion), ..self }
    }

    /// The same violation, carrying `patches`.
    pub fn with_patches(self, patches: Vec<Patch>) -> (v: RuleViolation)
        ensures
            v.rule_name == self.rule_name,
            v.severity == self.severity,
            v.message == self.message,
            v.location == self.location,
            v.suggestion == self.suggestion,
            v.patches == patches,
    {
        RuleViolation { patches, ..self }
    }
}


/// What a patch does, as plain values: its two ends, its replacement and its description.
pub open spec fn patch_view(p: Patch) -> (usize, usize, usize, usize, Seq<char>, Seq<char>) {
    (p.start_line, p.start_column, p.end_line, p.end_column, p.replacement@, p.description@)
}

/// The patches of all of `vs`, violation after violation, each violation's in its order.
pub open spec fn all_patches(vs: Seq<RuleViolation>) -> Seq<Patch>
    decreases vs.len(),
{
    if vs.len() == 0 {
        Seq::empty()
    } else {
        all_patches(vs.drop_last()) + vs.last().patches@
    }
}

} // verus!
