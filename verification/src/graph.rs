//! Workflow graphs.

use crate::json::Json;
use vstd::prelude::*;

verus! {

/// How failed attempts of an agent are retried.
#[derive(Clone, Copy, Debug, PartialEq, Eq, Structural)]
pub struct RetryPolicy {
    pub enabled: bool,
    pub max_retries: u64,
    /// How long a retry waits before it is dispatched.
    pub initial_delay_seconds: u64,
}

/// The policy of an agent whose document says nothing about retries.
pub open spec fn default_retry() -> RetryPolicy {
    RetryPolicy { enabled: true, max_retries: 3, initial_delay_seconds: 10 }
}

impl Default for RetryPolicy {
    fn default() -> (p: Self)
        ensures
            p == default_retry(),
    {
        RetryPolicy { enabled: true, max_retries: 3, initial_delay_seconds: 10 }
    }
}

/// An agent's part of a node.
pub struct AgentConfig {
    /// The prompt, with placeholders for variables.
    pub prompt: String,
    pub retry: RetryPolicy,
}

/// Sets the variable `name` to the value of the variable `source`.
pub struct Binding {
    pub name: String,
    pub source: String,
}

/// A variable that a loop carries from round to round.
pub struct LoopVariable {
    pub name: String,
    /// Its value in the first round.
    pub initial: Json,
    /// The variable that it takes its value from after each round.
    pub feedback: String,
}

/// Holds where the variable is the given text.
pub struct Condition {
    pub variable: String,
    pub value: String,
}

/// A loop: at most `max_iterations` rounds, until all conditions hold after a round.
pub struct LoopConfig {
    pub max_iterations: u64,
    pub variables: Vec<LoopVariable>,
    pub until: Vec<Condition>,
    pub outputs: Vec<Binding>,
}

/// An iteration: a round for each item of a variable, and a value collected from each round.
pub struct IterationConfig {
    pub iterator: String,
    pub collect: String,
}

/// What a node does.
pub enum NodeKind {
    Start,
    Agent(AgentConfig),
    Loop(LoopConfig),
    Iteration(IterationConfig),
    Output(Vec<Binding>),
}

/// A node of a graph.
pub struct Node {
    pub id: String,
    /// The index of the loop or iteration that the node is a member of.
    pub parent: Option<usize>,
    pub kind: NodeKind,
}

/// A workflow: its nodes, and its edges as pairs of node indices, source first.
pub struct Graph {
    pub nodes: Vec<Node>,
    pub edges: Vec<(usize, usize)>,
}

impl NodeKind {
    /// A loop or an iteration.
    pub open spec fn composite(self) -> bool {
        self is Loop || self is Iteration
    }

    /// Whether this is a loop or an iteration.
    pub fn is_composite(&self) -> (r: bool)
        ensures
            r == self.composite(),
    {
        match self {
            NodeKind::Loop(_) => true,
            NodeKind::Iteration(_) => true,
            _ => false,
        }
    }
}

/// A text without a dot.
pub open spec fn dotless(s: Seq<char>) -> bool {
    !s.contains('.')
}

/// The name belongs to the node `id`: the id and a dot stand in front.
pub open spec fn owned(name: Seq<char>, id: Seq<char>) -> bool {
    name.len() > id.len() && name.subrange(0, id.len() as int) == id && name[id.len() as int] == '.'
}

/// Each binding sets a variable of the node `id`.
pub open spec fn bindings_owned(bs: Seq<Binding>, id: Seq<char>) -> bool {
    forall|k: int| #![trigger bs[k]] 0 <= k < bs.len() ==> owned(bs[k].name@, id)
}

/// Each loop variable is a variable of the node `id`.
pub open spec fn variables_owned(vs: Seq<LoopVariable>, id: Seq<char>) -> bool {
    forall|k: int| #![trigger vs[k]] 0 <= k < vs.len() ==> owned(vs[k].name@, id)
}

impl Node {
    /// The node sets variables of its own alone.
    pub open spec fn sets_own(self) -> bool {
        match self.kind {
            NodeKind::Loop(c) => variables_owned(c.variables@, self.id@) && bindings_owned(
                c.outputs@,
                self.id@,
            ),
            NodeKind::Output(bs) => bindings_owned(bs@, self.id@),
            _ => true,
        }
    }
}

/// Two ids without dots do not own one name.
pub proof fn lemma_owner(name: Seq<char>, a: Seq<char>, b: Seq<char>)
    requires
        owned(name, a),
        owned(name, b),
        dotless(a),
        dotless(b),
    ensures
        a == b,
{
    if a.len() < b.len() {
        assert(b[a.len() as int] == name.subrange(0, b.len() as int)[a.len() as int]);
        assert(b.contains('.'));
    } else if b.len() < a.len() {
        assert(a[b.len() as int] == name.subrange(0, a.len() as int)[b.len() as int]);
        assert(a.contains('.'));
    }
}

impl Graph {
    /// The node at an index.
    pub open spec fn node(self, i: int) -> Node {
        self.nodes@[i]
    }

    /// The number of nodes.
    pub open spec fn size(self) -> int {
        self.nodes@.len() as int
    }

    /// Whether node `j` is a member of node `i`.
    pub open spec fn member(self, j: int, i: int) -> bool {
        self.nodes@[j].parent matches Some(p) && p == i
    }

    /// The parent of a member is a loop or an iteration outside any other, and no member is
    /// a loop or an iteration; edges are between nodes; ids are distinct and without dots; each
    /// node sets variables of its own alone.
    pub open spec fn wf(self) -> bool {
        &&& forall|i: int| #![trigger self.nodes@[i]]
            0 <= i < self.size() ==> (self.nodes@[i].parent matches Some(p) ==> {
                &&& p < self.size()
                &&& self.nodes@[p as int].kind.composite()
                &&& self.nodes@[p as int].parent is None
                &&& !self.nodes@[i].kind.composite()
            })
        &&& forall|k: int| #![trigger self.edges@[k]]
            0 <= k < self.edges@.len() ==> self.edges@[k].0 < self.size() && self.edges@[k].1
                < self.size()
        &&& forall|i: int, j: int| #![trigger self.nodes@[i], self.nodes@[j]]
            0 <= i < j < self.size() ==> self.nodes@[i].id@ != self.nodes@[j].id@
        &&& forall|i: int| #![trigger self.nodes@[i]]
            0 <= i < self.size() ==> dotless(self.nodes@[i].id@) && self.nodes@[i].sets_own()
    }
}

} // verus!
