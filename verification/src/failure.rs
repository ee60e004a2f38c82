//! Why an attempt failed, and what a later attempt is told about it.

use crate::text::decimal;
use crate::text::decimal_text;
use vstd::prelude::*;

verus! {

/// What went wrong with an attempt.
#[derive(Clone, Copy, Debug, PartialEq, Eq, Structural)]
pub enum NodeFailureKind {
    /// The agent's session failed.
    Session,
    /// The reply did not meet the node's output contract.
    StructuredOutput,
    /// The prompt, or the items of an iteration, could not be made from the variables.
    Variables,
    /// The run stopped while the attempt was still open.
    Interrupted,
}

/// A failed attempt's failure.
pub struct NodeFailure {
    pub kind: NodeFailureKind,
    pub message: String,
    /// What the agent had replied, where it had replied.
    pub output: Option<String>,
}

/// A failure, as contracts speak of it.
pub struct FailureView {
    pub kind: NodeFailureKind,
    pub message: Seq<char>,
    pub output: Option<Seq<char>>,
}

/// The characters of an optional text.
pub open spec fn text_view(text: Option<String>) -> Option<Seq<char>> {
    match text {
        Some(s) => Some(s@),
        None => None,
    }
}

impl View for NodeFailure {
    type V = FailureView;

    open spec fn view(&self) -> FailureView {
        FailureView { kind: self.kind, message: self.message@, output: text_view(self.output) }
    }
}

impl NodeFailureKind {
    /// The kind's name in records.
    pub open spec fn spec_name(self) -> Seq<char> {
        match self {
            NodeFailureKind::Session => "session"@,
            NodeFailureKind::StructuredOutput => "structured_output"@,
            NodeFailureKind::Variables => "variables"@,
            NodeFailureKind::Interrupted => "interrupted"@,
        }
    }

    /// The kind's name in records.
    pub fn as_str(&self) -> (name: &'static str)
        ensures
            name@ == self.spec_name(),
    {
        match self {
            NodeFailureKind::Session => "session",
            NodeFailureKind::StructuredOutput => "structured_output",
            NodeFailureKind::Variables => "variables",
            NodeFailureKind::Interrupted => "interrupted",
        }
    }

    /// Whether a failure of this kind is retried without anyone asking for it.
    pub open spec fn retryable(self) -> bool {
        self is Session || self is StructuredOutput
    }
}

impl NodeFailure {
    /// A failure without a reply.
    pub fn new(kind: NodeFailureKind, message: &str) -> (f: NodeFailure)
        ensures
            f@ == (FailureView { kind, message: message@, output: None }),
    {
        NodeFailure { kind, message: message.to_owned(), output: None }
    }

    /// The same failure with the given reply.
    pub fn with_output(self, output: Option<String>) -> (f: NodeFailure)
        ensures
            f@ == (FailureView { output: text_view(output), ..self@ }),
    {
        NodeFailure { kind: self.kind, message: self.message, output }
    }

    /// A failure that says the same.
    pub fn copied(&self) -> (f: NodeFailure)
        ensures
            f@ == self@,
    {
        let output = match &self.output {
            Some(s) => Some(s.clone()),
            None => None,
        };
        NodeFailure { kind: self.kind, message: self.message.clone(), output }
    }
}

/// A reply in plain text where the node's output contract asks for structure.
pub fn structured_output_failure(message: &str) -> (f: NodeFailure)
    ensures
        f@ == (FailureView {
            kind: NodeFailureKind::StructuredOutput,
            message: message@,
            output: Some("plain text"@),
        }),
{
    NodeFailure::new(NodeFailureKind::StructuredOutput, message).with_output(
        Some("plain text".to_owned()),
    )
}

/// What the next attempt is told about a failed one.
pub open spec fn failure_block(attempt: u64, f: FailureView) -> Seq<char> {
    "Previous attempt ("@ + decimal(attempt as nat) + ") failed: "@ + f.message + match f.output {
        Some(output) => "\nIt answered:\n"@ + output,
        None => Seq::empty(),
    }
}

/// Writes what the next attempt is told about a failed one.
pub fn failure_block_text(attempt: u64, f: &NodeFailure) -> (s: String)
    ensures
        s@ == failure_block(attempt, f@),
{
    let mut s = "Previous attempt (".to_owned();
    s.append(decimal_text(attempt).as_str());
    s.append(") failed: ");
    s.append(f.message.as_str());
    match &f.output {
        Some(output) => {
            s.append("\nIt answered:\n");
            s.append(output.as_str());
            assert(s@ =~= failure_block(attempt, f@));
        },
        None => {
            assert(s@ =~= failure_block(attempt, f@));
        },
    }
    s
}

} // verus!
