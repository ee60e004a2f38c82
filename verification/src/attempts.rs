//! Attempts at nodes, and which earlier failure a new attempt is told about.

use crate::failure::FailureView;
use crate::failure::NodeFailure;
use crate::failure::NodeFailureKind;
use crate::failure::failure_block;
use crate::failure::failure_block_text;
use crate::failure::text_view;
use vstd::prelude::*;

verus! {

/// How far an attempt has come.
pub enum Stage {
    /// It is to be dispatched at the given time, in milliseconds.
    Waiting(u64),
    /// Its prompt has been handed to the agent.
    Running,
    /// The agent has answered.
    Succeeded(String),
    /// It ran, and failed.
    Failed(NodeFailure),
    /// It failed without having run.
    Abandoned(NodeFailure),
}

/// A stage, as contracts speak of it.
pub enum StageView {
    Waiting(u64),
    Running,
    Succeeded(Seq<char>),
    Failed(FailureView),
    Abandoned(FailureView),
}

impl View for Stage {
    type V = StageView;

    open spec fn view(&self) -> StageView {
        match self {
            Stage::Waiting(at) => StageView::Waiting(*at),
            Stage::Running => StageView::Running,
            Stage::Succeeded(output) => StageView::Succeeded(output@),
            Stage::Failed(f) => StageView::Failed(f@),
            Stage::Abandoned(f) => StageView::Abandoned(f@),
        }
    }
}

impl StageView {
    /// The attempt is not over.
    pub open spec fn open(self) -> bool {
        self is Waiting || self is Running
    }

    /// The attempt ran and is over.
    pub open spec fn ended(self) -> bool {
        self is Succeeded || self is Failed
    }

    /// The attempt has been handed to an agent.
    pub open spec fn ran(self) -> bool {
        self is Running || self.ended()
    }
}

/// One attempt at a node.
pub struct NodeRun {
    /// The index of the node in its graph.
    pub node: usize,
    /// The round of the node's loop or iteration, counted from 0; `None` outside of one.
    pub iteration: Option<u64>,
    /// Which attempt at the node in this round it is, counted from 1.
    pub attempt: u64,
    /// Which automatic retry it is, counted from 1; 0 for the first attempt and after a resume.
    pub retry: u64,
    pub stage: Stage,
    /// Whether it still counts: a retry replaces a failed attempt, and a resume clears attempts.
    pub live: bool,
    /// What the agent was asked.
    pub prompt: Option<String>,
    /// What the prompt said about an earlier failure.
    pub injected_failure_context: Option<String>,
    /// The agent session that it ran in.
    pub session_id: Option<u64>,
}

/// An attempt, as contracts speak of it.
pub struct RowView {
    pub node: int,
    pub iteration: Option<nat>,
    pub attempt: u64,
    pub retry: u64,
    pub stage: StageView,
    pub live: bool,
    pub prompt: Option<Seq<char>>,
    pub injected: Option<Seq<char>>,
    pub session: Option<nat>,
}

/// A round, as contracts speak of it.
pub open spec fn round_view(iteration: Option<u64>) -> Option<nat> {
    match iteration {
        Some(k) => Some(k as nat),
        None => None,
    }
}

impl View for NodeRun {
    type V = RowView;

    open spec fn view(&self) -> RowView {
        RowView {
            node: self.node as int,
            iteration: round_view(self.iteration),
            attempt: self.attempt,
            retry: self.retry,
            stage: self.stage@,
            live: self.live,
            prompt: text_view(self.prompt),
            injected: text_view(self.injected_failure_context),
            session: round_view(self.session_id),
        }
    }
}

/// The views of a sequence of attempts.
pub open spec fn rows_view(rows: Seq<NodeRun>) -> Seq<RowView> {
    Seq::new(rows.len(), |i: int| rows[i]@)
}

impl RowView {
    /// An attempt at the given node in the given round.
    pub open spec fn at(self, node: int, iteration: Option<nat>) -> bool {
        self.node == node && self.iteration == iteration
    }
}

/// The latest attempt at a node in a round that ran and is over.
pub open spec fn last_ended(rows: Seq<RowView>, node: int, iteration: Option<nat>) -> Option<int>
    decreases rows.len(),
{
    if rows.len() == 0 {
        None
    } else if rows.last().at(node, iteration) && rows.last().stage.ended() {
        Some(rows.len() - 1)
    } else {
        last_ended(rows.drop_last(), node, iteration)
    }
}

/// The failed attempt that a new attempt at the node in the round follows: the latest one that
/// ran to its end, if it failed. Whether attempts still count makes no difference, so a failure
/// that a later attempt made good stays made good.
pub open spec fn last_failed(rows: Seq<RowView>, node: int, iteration: Option<nat>) -> Option<int> {
    match last_ended(rows, node, iteration) {
        Some(i) => if rows[i].stage is Failed {
            Some(i)
        } else {
            None
        },
        None => None,
    }
}

/// How many attempts at a node in a round have run.
pub open spec fn attempts_ran(rows: Seq<RowView>, node: int, iteration: Option<nat>) -> nat
    decreases rows.len(),
{
    if rows.len() == 0 {
        0
    } else {
        attempts_ran(rows.drop_last(), node, iteration) + if rows.last().at(node, iteration)
            && rows.last().stage.ran() {
            1nat
        } else {
            0nat
        }
    }
}

/// What a new attempt is told: the block of the failure it follows, where the reply was at fault.
pub open spec fn injected(rows: Seq<RowView>, node: int, iteration: Option<nat>) -> Option<
    Seq<char>,
> {
    match last_failed(rows, node, iteration) {
        Some(i) => if rows[i].stage->Failed_0.kind is StructuredOutput {
            Some(failure_block(rows[i].attempt, rows[i].stage->Failed_0))
        } else {
            None
        },
        None => None,
    }
}

/// A prompt with what the attempt is told behind it.
pub open spec fn with_block(base: Seq<char>, block: Option<Seq<char>>) -> Seq<char> {
    match block {
        Some(b) => base + "\n\n"@ + b,
        None => base,
    }
}

impl NodeRun {
    fn is_at(&self, node: usize, iteration: Option<u64>) -> (r: bool)
        ensures
            r == self@.at(node as int, round_view(iteration)),
    {
        self.node == node && match (self.iteration, iteration) {
            (Some(a), Some(b)) => a == b,
            (None, None) => true,
            _ => false,
        }
    }
}

/// The failed attempt that a new attempt at the node in the round follows, if there is one.
pub fn find_last_failed_attempt(rows: &Vec<NodeRun>, node: usize, iteration: Option<u64>) -> (r:
    Option<usize>)
    ensures
        match r {
            Some(i) => last_failed(
                rows_view(rows@),
                node as int,
                round_view(iteration),
            ) == Some(i as int)
                && i < rows@.len() && rows@[i as int]@.stage is Failed,
            None => last_failed(
                rows_view(rows@),
                node as int,
                round_view(iteration),
            ) is None,
        },
{
    let mut i: usize = rows.len();
    let ghost all = rows_view(rows@);
    assert(all.take(i as int) =~= all);
    while i > 0
        invariant
            i <= rows@.len(),
            all == rows_view(rows@),
            last_ended(all, node as int, round_view(iteration)) == last_ended(
                all.take(i as int),
                node as int,
                round_view(iteration),
            ),
        decreases i,
    {
        i = i - 1;
        assert(all.take(i + 1).drop_last() =~= all.take(i as int));
        assert(all.take(i + 1).last() == rows@[i as int]@);
        if rows[i].is_at(node, iteration) {
            match &rows[i].stage {
                Stage::Failed(_) => {
                    return Some(i);
                },
                Stage::Succeeded(_) => {
                    return None;
                },
                _ => {},
            }
        }
    }
    None
}

/// How many attempts at a node in a round have run.
pub fn count_attempts_ran(rows: &Vec<NodeRun>, node: usize, iteration: Option<u64>) -> (n: usize)
    ensures
        n == attempts_ran(rows_view(rows@), node as int, round_view(iteration)),
        n <= rows@.len(),
{
    let mut n: usize = 0;
    let ghost all = rows_view(rows@);
    for i in 0..rows.len()
        invariant
            all == rows_view(rows@),
            n <= i,
            n == attempts_ran(all.take(i as int), node as int, round_view(iteration)),
    {
        assert(all.take(i + 1).drop_last() =~= all.take(i as int));
        assert(all.take(i + 1).last() == rows@[i as int]@);
        if rows[i].is_at(node, iteration) {
            match &rows[i].stage {
                Stage::Running => {
                    n = n + 1;
                },
                Stage::Succeeded(_) => {
                    n = n + 1;
                },
                Stage::Failed(_) => {
                    n = n + 1;
                },
                _ => {},
            }
        }
    }
    assert(all.take(all.len() as int) =~= all);
    n
}

/// What a new attempt at the node in the round is told about an earlier failure.
pub fn injected_text(rows: &Vec<NodeRun>, node: usize, iteration: Option<u64>) -> (r: Option<
    String,
>)
    ensures
        text_view(r) == injected(rows_view(rows@), node as int, round_view(iteration)),
{
    match find_last_failed_attempt(rows, node, iteration) {
        Some(i) => match &rows[i].stage {
            Stage::Failed(f) => if f.kind == NodeFailureKind::StructuredOutput {
                Some(failure_block_text(rows[i].attempt, f))
            } else {
                None
            },
            _ => None,
        },
        None => None,
    }
}

} // verus!
