//! The sequence document's data model: tester parameters, sequence
//! items and the document that holds them.

use vstd::prelude::*;

verus! {

/// Tester parameters from the sequence document's header.
#[derive(Debug, Clone)]
pub struct Parameters {
    pub vin: String,
    pub tester_present: bool,
    pub tester_present_interval: String,
}

/// An item's action: absent, a single string, or an ordered list of
/// strings.
#[derive(Debug, Clone)]
pub enum ActionValue {
    /// No usable action was given.
    Missing,
    /// A single action string.
    One(String),
    /// An ordered list of action strings.
    Many(Vec<String>),
}

/// One scripted step of a sequence.
#[derive(Debug, Clone)]
pub struct SequenceItem {
    pub name: String,
    pub description: String,
    pub action: ActionValue,
    pub expect: Vec<String>,
    pub timeout: String,
    pub fail: String,
}

/// The optional handler named by a sequence document; parsed but not
/// executed.
#[derive(Debug, Clone)]
pub struct FailHandler {
    pub send_diag: SequenceItem,
}

/// A whole sequence document.
#[derive(Debug, Clone)]
pub struct Sequence {
    pub parameter: Parameters,
    pub sequence: Vec<SequenceItem>,
    pub fail_handler: Option<FailHandler>,
}

} // verus!
