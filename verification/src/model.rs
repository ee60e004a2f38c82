//! What a run is, and how each event changes it.

use crate::attempts::RowView;
use crate::attempts::StageView;
use crate::attempts::attempts_ran;
use crate::attempts::injected;
use crate::attempts::with_block;
use crate::failure::FailureView;
use crate::failure::NodeFailureKind;
use crate::graph::Binding;
use crate::graph::Condition;
use crate::graph::Graph;
use crate::graph::LoopVariable;
use crate::graph::NodeKind;
use crate::graph::RetryPolicy;
use crate::json::Json;
use crate::json::Tree;
use crate::pool::value_or_null;
use crate::pool::variable;
use crate::template::rendered;
use crate::text::decimal;
use vstd::prelude::*;

verus! {

/// How far a run has come.
#[derive(Clone, Copy, Debug, PartialEq, Eq, Structural)]
pub enum WorkflowRunStatus {
    Pending,
    Running,
    Succeeded,
    Failed,
}

/// How far a node has come: in the run, or, for a member, in the current round.
#[derive(Clone, Copy, Debug, PartialEq, Eq, Structural)]
pub enum Phase {
    Idle,
    Active,
    Done,
}

/// The rounds of a loop or an iteration.
pub struct RoundsView {
    /// The current round, counted from 0.
    pub round: nat,
    /// An iteration's items, one for each round.
    pub items: Seq<Tree>,
    /// What an iteration has collected, one value for each round that is over.
    pub collected: Seq<Tree>,
}

/// A run, as contracts speak of it.
pub struct RunView {
    pub status: WorkflowRunStatus,
    /// Why the run failed.
    pub failure: Option<FailureView>,
    /// All attempts that were ever made, oldest first.
    pub rows: Seq<RowView>,
    pub phases: Seq<Phase>,
    pub rounds: Seq<RoundsView>,
    pub pool: Map<Seq<char>, Tree>,
}

// ---------------------------------------------------------------------------------------------
// Variables
// ---------------------------------------------------------------------------------------------

/// The variables after the first `n` bindings.
pub open spec fn bound(pool: Map<Seq<char>, Tree>, bs: Seq<Binding>, n: nat) -> Map<
    Seq<char>,
    Tree,
>
    decreases n,
{
    if n == 0 {
        pool
    } else {
        let p = bound(pool, bs, (n - 1) as nat);
        p.insert(bs[n - 1].name@, value_or_null(p, bs[n - 1].source@))
    }
}

/// The variables after the first `n` loop variables have got their initial values.
pub open spec fn initialised(pool: Map<Seq<char>, Tree>, vs: Seq<LoopVariable>, n: nat) -> Map<
    Seq<char>,
    Tree,
>
    decreases n,
{
    if n == 0 {
        pool
    } else {
        initialised(pool, vs, (n - 1) as nat).insert(vs[n - 1].name@, vs[n - 1].initial@)
    }
}

/// The variables after the first `n` loop variables have been fed back.
pub open spec fn fed_back(pool: Map<Seq<char>, Tree>, vs: Seq<LoopVariable>, n: nat) -> Map<
    Seq<char>,
    Tree,
>
    decreases n,
{
    if n == 0 {
        pool
    } else {
        let p = fed_back(pool, vs, (n - 1) as nat);
        p.insert(vs[n - 1].name@, value_or_null(p, vs[n - 1].feedback@))
    }
}

/// Each condition's variable is the condition's text.
pub open spec fn all_hold(pool: Map<Seq<char>, Tree>, cs: Seq<Condition>) -> bool {
    forall|k: int| #![trigger cs[k]]
        0 <= k < cs.len() ==> value_or_null(pool, cs[k].variable@) == Tree::Text(cs[k].value@)
}

// ---------------------------------------------------------------------------------------------
// Attempts
// ---------------------------------------------------------------------------------------------

/// Why an attempt that was open when its run stopped is over.
pub open spec fn interruption() -> FailureView {
    FailureView {
        kind: NodeFailureKind::Interrupted,
        message: "the run stopped before the attempt was over"@,
        output: None,
    }
}

/// Why an attempt, or an iteration, could not be made from the variables.
pub open spec fn missing(name: Seq<char>) -> FailureView {
    FailureView { kind: NodeFailureKind::Variables, message: name, output: None }
}

/// The attempt once its run has stopped.
pub open spec fn stopped(row: RowView) -> RowView {
    match row.stage {
        StageView::Waiting(_) => RowView { stage: StageView::Abandoned(interruption()), ..row },
        StageView::Running => RowView { stage: StageView::Failed(interruption()), ..row },
        _ => row,
    }
}

/// The run stopped for the given reason.
pub open spec fn fail_run(s: RunView, f: FailureView) -> RunView {
    RunView {
        status: WorkflowRunStatus::Failed,
        failure: Some(f),
        rows: Seq::new(s.rows.len(), |r: int| stopped(s.rows[r])),
        ..s
    }
}

/// The round that a node is in.
pub open spec fn current_iteration(g: Graph, s: RunView, i: int) -> Option<nat> {
    match g.node(i).parent {
        Some(p) => Some(s.rounds[p as int].round),
        None => None,
    }
}

/// An agent's retry policy.
pub open spec fn policy(g: Graph, i: int) -> RetryPolicy
    recommends
        g.node(i).kind is Agent,
{
    g.node(i).kind->Agent_0.retry
}

/// The run with attempt `r` handed to its agent, in a session of its own: the prompt is the node's template, rendered with
/// the run's variables, and what the attempt is told about the failure that it follows. Where the
/// template cannot be rendered, the attempt is over without having run, and the run fails.
pub open spec fn dispatch(g: Graph, s: RunView, r: int) -> RunView {
    let row = s.rows[r];
    let block = injected(s.rows, row.node, row.iteration);
    match rendered(g.node(row.node).kind->Agent_0.prompt@, s.pool) {
        Ok(base) => RunView {
            rows: s.rows.update(
                r,
                RowView {
                    stage: StageView::Running,
                    prompt: Some(with_block(base, block)),
                    injected: block,
                    session: Some(r as nat),
                    ..row
                },
            ),
            ..s
        },
        Err(name) => fail_run(
            RunView {
                rows: s.rows.update(
                    r,
                    RowView { stage: StageView::Abandoned(missing(name)), ..row },
                ),
                ..s
            },
            missing(name),
        ),
    }
}

/// A number as far as it fits.
pub open spec fn numbered(n: nat) -> u64 {
    if n > u64::MAX {
        u64::MAX
    } else {
        n as u64
    }
}

/// A new attempt, to be dispatched at the given time.
pub open spec fn new_row(
    rows: Seq<RowView>,
    node: int,
    iteration: Option<nat>,
    retry: u64,
    at: u64,
) -> RowView {
    RowView {
        node,
        iteration,
        attempt: numbered(attempts_ran(rows, node, iteration) + 1),
        retry,
        stage: StageView::Waiting(at),
        live: true,
        prompt: None,
        injected: None,
        session: None,
    }
}

// ---------------------------------------------------------------------------------------------
// The flow from node to node
// ---------------------------------------------------------------------------------------------

/// An edge from `source` does not hold node `i` back: the source is done, or contains the node.
pub open spec fn lets_pass(g: Graph, s: RunView, source: int, i: int) -> bool {
    g.member(i, source) || s.phases[source] is Done
}

/// Node `i` may begin.
pub open spec fn ready(g: Graph, s: RunView, i: int) -> bool {
    &&& s.phases[i] is Idle
    &&& g.node(i).parent matches Some(p) ==> s.phases[p as int] is Active
    &&& forall|k: int| #![trigger g.edges@[k]]
        0 <= k < g.edges@.len() && g.edges@[k].1 == i ==> lets_pass(g, s, g.edges@[k].0 as int, i)
}

/// All members of node `i` are done.
pub open spec fn members_done(g: Graph, s: RunView, i: int) -> bool {
    forall|j: int| #![trigger g.member(j, i)]
        0 <= j < g.size() && g.member(j, i) ==> s.phases[j] is Done
}

/// The current round of node `i` is over.
pub open spec fn round_over(g: Graph, s: RunView, i: int) -> bool {
    g.node(i).kind.composite() && s.phases[i] is Active && members_done(g, s, i)
}

/// The first node from `i` on that may begin.
pub open spec fn ready_from(g: Graph, s: RunView, i: int) -> Option<int>
    decreases g.size() - i,
{
    if i >= g.size() {
        None
    } else if ready(g, s, i) {
        Some(i)
    } else {
        ready_from(g, s, i + 1)
    }
}

/// The first node from `i` on whose round is over.
pub open spec fn over_from(g: Graph, s: RunView, i: int) -> Option<int>
    decreases g.size() - i,
{
    if i >= g.size() {
        None
    } else if round_over(g, s, i) {
        Some(i)
    } else {
        over_from(g, s, i + 1)
    }
}

/// How many rounds node `i` has at most.
pub open spec fn total_rounds(g: Graph, s: RunView, i: int) -> int {
    match g.node(i).kind {
        NodeKind::Loop(c) => c.max_iterations as int,
        NodeKind::Iteration(_) => s.rounds[i].items.len() as int,
        _ => 0,
    }
}

/// The run with node `i` in the given phase.
pub open spec fn set_phase(s: RunView, i: int, phase: Phase) -> RunView {
    RunView { phases: s.phases.update(i, phase), ..s }
}

/// The run with the variables of an iteration's current round: its item and its index.
pub open spec fn bind_round(g: Graph, s: RunView, i: int) -> RunView {
    if g.node(i).kind is Iteration {
        let round = s.rounds[i].round;
        RunView {
            pool: s.pool.insert(
                variable(g.node(i).id@, "item"@),
                s.rounds[i].items[round as int],
            ).insert(
                variable(g.node(i).id@, "index"@),
                Tree::Number(Some(round as u64), decimal(round)),
            ),
            ..s
        }
    } else {
        s
    }
}

/// The run with the loop or iteration `i` done and its results in its variables.
pub open spec fn finish(g: Graph, s: RunView, i: int) -> RunView {
    match g.node(i).kind {
        NodeKind::Loop(c) => RunView {
            pool: bound(s.pool, c.outputs@, c.outputs@.len()),
            phases: s.phases.update(i, Phase::Done),
            ..s
        },
        NodeKind::Iteration(_) => RunView {
            pool: s.pool.insert(
                variable(g.node(i).id@, "output"@),
                Tree::Array(s.rounds[i].collected),
            ),
            phases: s.phases.update(i, Phase::Done),
            ..s
        },
        _ => s,
    }
}

/// The run with the next round of node `i` begun: its members are idle again.
pub open spec fn next_round(g: Graph, s: RunView, i: int) -> RunView {
    bind_round(
        g,
        RunView {
            rounds: s.rounds.update(
                i,
                RoundsView { round: s.rounds[i].round + 1, ..s.rounds[i] },
            ),
            phases: Seq::new(
                s.phases.len(),
                |j: int|
                    if g.member(j, i) {
                        Phase::Idle
                    } else {
                        s.phases[j]
                    },
            ),
            ..s
        },
        i,
    )
}

/// The run once the round of node `i` that is over has been settled: an iteration collects; then
/// the node is done, if this was its last round, or goes into the next.
pub open spec fn settle(g: Graph, s: RunView, i: int) -> RunView {
    match g.node(i).kind {
        NodeKind::Loop(c) => if all_hold(s.pool, c.until@) || s.rounds[i].round + 1
            >= c.max_iterations {
            finish(g, s, i)
        } else {
            next_round(
                g,
                RunView { pool: fed_back(s.pool, c.variables@, c.variables@.len()), ..s },
                i,
            )
        },
        NodeKind::Iteration(c) => {
            let t = RunView {
                rounds: s.rounds.update(
                    i,
                    RoundsView {
                        collected: s.rounds[i].collected.push(value_or_null(s.pool, c.collect@)),
                        ..s.rounds[i]
                    },
                ),
                ..s
            };
            if s.rounds[i].round + 1 >= s.rounds[i].items.len() {
                finish(g, t, i)
            } else {
                next_round(g, t, i)
            }
        },
        _ => s,
    }
}

/// The run with node `i` begun.
pub open spec fn begin(g: Graph, s: RunView, i: int) -> RunView {
    match g.node(i).kind {
        NodeKind::Start => set_phase(s, i, Phase::Done),
        NodeKind::Output(bs) => RunView {
            pool: bound(s.pool, bs@, bs@.len()),
            phases: s.phases.update(i, Phase::Done),
            ..s
        },
        NodeKind::Agent(_) => dispatch(
            g,
            RunView {
                rows: s.rows.push(new_row(s.rows, i, current_iteration(g, s, i), 0, 0)),
                phases: s.phases.update(i, Phase::Active),
                ..s
            },
            s.rows.len() as int,
        ),
        NodeKind::Loop(c) => {
            let t = RunView {
                rounds: s.rounds.update(
                    i,
                    RoundsView { round: 0, items: Seq::empty(), collected: Seq::empty() },
                ),
                phases: s.phases.update(i, Phase::Active),
                pool: initialised(s.pool, c.variables@, c.variables@.len()),
                ..s
            };
            if c.max_iterations == 0 {
                finish(g, t, i)
            } else {
                t
            }
        },
        NodeKind::Iteration(c) => match value_or_null(s.pool, c.iterator@) {
            Tree::Array(items) => {
                let t = RunView {
                    rounds: s.rounds.update(
                        i,
                        RoundsView { round: 0, items, collected: Seq::empty() },
                    ),
                    phases: s.phases.update(i, Phase::Active),
                    ..s
                };
                if items.len() == 0 {
                    finish(g, t, i)
                } else {
                    bind_round(g, t, i)
                }
            },
            _ => fail_run(set_phase(s, i, Phase::Active), missing(c.iterator@)),
        },
    }
}

/// One step of a running run: the first node that may begin does; where there is none, the first
/// round that is over is settled.
pub open spec fn step(g: Graph, s: RunView) -> Option<RunView> {
    if s.status !is Running {
        None
    } else {
        match ready_from(g, s, 0) {
            Some(i) => Some(begin(g, s, i)),
            None => match over_from(g, s, 0) {
                Some(i) => Some(settle(g, s, i)),
                None => None,
            },
        }
    }
}

/// All nodes outside of loops and iterations are done.
pub open spec fn all_done(g: Graph, s: RunView) -> bool {
    forall|i: int| #![trigger s.phases[i]]
        0 <= i < g.size() && g.node(i).parent is None ==> s.phases[i] is Done
}

/// A run's attempts are at agents, its nodes and rounds are those of its graph; before it runs,
/// nothing has begun, and while it runs, each loop or iteration at work has a current round.
pub open spec fn run_wf(g: Graph, s: RunView) -> bool {
    &&& g.wf()
    &&& s.phases.len() == g.size()
    &&& s.rounds.len() == g.size()
    &&& forall|r: int| #![trigger s.rows[r]]
        0 <= r < s.rows.len() ==> 0 <= s.rows[r].node < g.size() && g.node(
            s.rows[r].node,
        ).kind is Agent
    &&& s.status is Pending ==> s.rows.len() == 0 && forall|i: int| #![trigger s.phases[i]]
        0 <= i < g.size() ==> s.phases[i] is Idle
    &&& s.status is Running ==> forall|i: int| #![trigger s.rounds[i]]
        0 <= i < g.size() && g.node(i).kind.composite() && s.phases[i] is Active
            ==> s.rounds[i].round < total_rounds(g, s, i)
}

/// The sum of `f` over the first `n` numbers.
pub open spec fn sum(f: spec_fn(int) -> nat, n: nat) -> nat
    decreases n,
{
    if n == 0 {
        0
    } else {
        sum(f, (n - 1) as nat) + f(n - 1)
    }
}

/// 1 for an idle node outside of loops and iterations.
pub open spec fn outer_weight(g: Graph, s: RunView) -> spec_fn(int) -> nat {
    |i: int|
        if g.node(i).parent is None && s.phases[i] is Idle {
            1nat
        } else {
            0nat
        }
}

/// The rounds that a loop or an iteration at work has left.
pub open spec fn rounds_weight(g: Graph, s: RunView) -> spec_fn(int) -> nat {
    |i: int|
        if g.node(i).kind.composite() && s.phases[i] is Active && s.rounds[i].round
            < total_rounds(g, s, i) {
            (total_rounds(g, s, i) - s.rounds[i].round) as nat
        } else {
            0nat
        }
}

/// 1 for an idle member.
pub open spec fn inner_weight(g: Graph, s: RunView) -> spec_fn(int) -> nat {
    |i: int|
        if g.node(i).parent is Some && s.phases[i] is Idle {
            1nat
        } else {
            0nat
        }
}

proof fn lemma_sum_same(f: spec_fn(int) -> nat, h: spec_fn(int) -> nat, n: nat)
    requires
        forall|i: int| 0 <= i < n ==> #[trigger] f(i) == h(i),
    ensures
        sum(f, n) == sum(h, n),
    decreases n,
{
    if n > 0 {
        lemma_sum_same(f, h, (n - 1) as nat);
        assert(f(n - 1) == h(n - 1));
    }
}

proof fn lemma_sum_less(f: spec_fn(int) -> nat, h: spec_fn(int) -> nat, n: nat, k: int)
    requires
        0 <= k < n,
        forall|i: int| 0 <= i < n ==> #[trigger] h(i) <= f(i),
        h(k) < f(k),
    ensures
        sum(h, n) < sum(f, n),
    decreases n,
{
    if n - 1 == k {
        lemma_sum_at_most(f, h, (n - 1) as nat);
    } else {
        lemma_sum_less(f, h, (n - 1) as nat, k);
        assert(h(n - 1) <= f(n - 1));
    }
}

proof fn lemma_sum_at_most(f: spec_fn(int) -> nat, h: spec_fn(int) -> nat, n: nat)
    requires
        forall|i: int| 0 <= i < n ==> #[trigger] h(i) <= f(i),
    ensures
        sum(h, n) <= sum(f, n),
    decreases n,
{
    if n > 0 {
        lemma_sum_at_most(f, h, (n - 1) as nat);
        assert(h(n - 1) <= f(n - 1));
    }
}

/// What the first node that may begin is.
pub proof fn lemma_ready_from(g: Graph, s: RunView, i: int)
    requires
        0 <= i,
    ensures
        match ready_from(g, s, i) {
            Some(k) => i <= k < g.size() && ready(g, s, k),
            None => forall|k: int| i <= k < g.size() ==> !ready(g, s, k),
        },
    decreases g.size() - i,
{
    if i < g.size() && !ready(g, s, i) {
        lemma_ready_from(g, s, i + 1);
    }
}

/// What the first node whose round is over is.
pub proof fn lemma_over_from(g: Graph, s: RunView, i: int)
    requires
        0 <= i,
    ensures
        match over_from(g, s, i) {
            Some(k) => i <= k < g.size() && round_over(g, s, k),
            None => forall|k: int| i <= k < g.size() ==> !round_over(g, s, k),
        },
    decreases g.size() - i,
{
    if i < g.size() && !round_over(g, s, i) {
        lemma_over_from(g, s, i + 1);
    }
}

/// How many nodes outside of loops and iterations have yet to begin.
pub open spec fn outer_left(g: Graph, s: RunView) -> nat {
    sum(outer_weight(g, s), g.size() as nat)
}

/// How many rounds the loops and iterations at work have left.
pub open spec fn rounds_left(g: Graph, s: RunView) -> nat {
    sum(rounds_weight(g, s), g.size() as nat)
}

/// How many members have yet to begin.
pub open spec fn inner_left(g: Graph, s: RunView) -> nat {
    sum(inner_weight(g, s), g.size() as nat)
}

proof fn lemma_begin(g: Graph, s: RunView, i: int)
    requires
        run_wf(g, s),
        s.status is Running,
        0 <= i < g.size(),
        ready(g, s, i),
    ensures
        run_wf(g, begin(g, s, i)),
        ({
            let t = begin(g, s, i);
            ||| outer_left(g, t) < outer_left(g, s)
            ||| outer_left(g, t) == outer_left(g, s) && rounds_left(g, t) == rounds_left(g, s)
                && inner_left(g, t) < inner_left(g, s)
        }),
{
    let t = begin(g, s, i);
    let n = g.size() as nat;
    assert(forall|k: int| 0 <= k < n && k != i ==> t.phases[k] == s.phases[k]);
    assert(t.phases[i] !is Idle);
    if g.node(i).parent is None {
        lemma_sum_less(outer_weight(g, s), outer_weight(g, t), n, i);
    } else {
        lemma_sum_same(outer_weight(g, s), outer_weight(g, t), n);
        lemma_sum_same(rounds_weight(g, s), rounds_weight(g, t), n);
        lemma_sum_less(inner_weight(g, s), inner_weight(g, t), n, i);
    }
}

proof fn lemma_settle(g: Graph, s: RunView, i: int)
    requires
        run_wf(g, s),
        s.status is Running,
        0 <= i < g.size(),
        round_over(g, s, i),
    ensures
        run_wf(g, settle(g, s, i)),
        outer_left(g, settle(g, s, i)) == outer_left(g, s),
        rounds_left(g, settle(g, s, i)) < rounds_left(g, s),
{
    let t = settle(g, s, i);
    let n = g.size() as nat;
    assert(s.rounds[i].round < total_rounds(g, s, i));
    assert(g.node(i).parent is None);
    lemma_sum_same(outer_weight(g, s), outer_weight(g, t), n);
    assert forall|k: int| 0 <= k < n && k != i implies #[trigger] rounds_weight(g, t)(k)
        <= rounds_weight(g, s)(k) by {
        assert(t.rounds[k] == s.rounds[k]);
        assert(g.node(k).kind.composite() ==> t.phases[k] == s.phases[k]);
        assert(total_rounds(g, t, k) == total_rounds(g, s, k));
    }
    assert(rounds_weight(g, t)(i) < rounds_weight(g, s)(i)) by {
        assert(total_rounds(g, t, i) == total_rounds(g, s, i));
        if t.phases[i] is Active {
            assert(t.rounds[i].round == s.rounds[i].round + 1);
        }
    }
    lemma_sum_less(rounds_weight(g, s), rounds_weight(g, t), n, i);
}

/// A step keeps a run well-formed and brings it closer to rest.
pub proof fn lemma_step(g: Graph, s: RunView)
    requires
        run_wf(g, s),
    ensures
        match step(g, s) {
            Some(t) => {
                &&& run_wf(g, t)
                &&& {
                    ||| outer_left(g, t) < outer_left(g, s)
                    ||| outer_left(g, t) == outer_left(g, s) && rounds_left(g, t) < rounds_left(
                        g,
                        s,
                    )
                    ||| outer_left(g, t) == outer_left(g, s) && rounds_left(g, t) == rounds_left(
                        g,
                        s,
                    ) && inner_left(g, t) < inner_left(g, s)
                }
            },
            None => true,
        },
{
    if s.status is Running {
        lemma_ready_from(g, s, 0);
        lemma_over_from(g, s, 0);
        match ready_from(g, s, 0) {
            Some(i) => {
                lemma_begin(g, s, i);
            },
            None => {
                if let Some(i) = over_from(g, s, 0) {
                    lemma_settle(g, s, i);
                }
            },
        }
    }
}

#[via_fn]
proof fn advanced_decreases(g: Graph, s: RunView) {
    lemma_step(g, s);
}

/// The run at rest: stepped until nothing is left to begin or to settle; then, if it is still
/// running and all is done, it has succeeded.
pub open spec fn advanced(g: Graph, s: RunView) -> RunView
    decreases outer_left(g, s), rounds_left(g, s), inner_left(g, s),
    when run_wf(g, s)
    via advanced_decreases
{
    match step(g, s) {
        Some(t) => advanced(g, t),
        None => if s.status is Running && all_done(g, s) {
            RunView { status: WorkflowRunStatus::Succeeded, ..s }
        } else {
            s
        },
    }
}

/// Coming to rest keeps a run well-formed.
pub proof fn lemma_advanced(g: Graph, s: RunView)
    requires
        run_wf(g, s),
    ensures
        run_wf(g, advanced(g, s)),
    decreases outer_left(g, s), rounds_left(g, s), inner_left(g, s),
{
    lemma_step(g, s);
    if let Some(t) = step(g, s) {
        lemma_advanced(g, t);
    }
}

// ---------------------------------------------------------------------------------------------
// Events
// ---------------------------------------------------------------------------------------------

/// A run that has not begun.
pub open spec fn pending(g: Graph) -> RunView {
    RunView {
        status: WorkflowRunStatus::Pending,
        failure: None,
        rows: Seq::empty(),
        phases: Seq::new(g.size() as nat, |i: int| Phase::Idle),
        rounds: Seq::new(
            g.size() as nat,
            |i: int| RoundsView { round: 0, items: Seq::empty(), collected: Seq::empty() },
        ),
        pool: Map::empty(),
    }
}

/// The first start node from `i` on that is outside of loops and iterations.
pub open spec fn start_from(g: Graph, i: int) -> Option<int>
    decreases g.size() - i,
{
    if i >= g.size() {
        None
    } else if g.node(i).kind is Start && g.node(i).parent is None {
        Some(i)
    } else {
        start_from(g, i + 1)
    }
}

/// The variables after the first `n` input variables of the node `id` have been set.
pub open spec fn with_input(
    pool: Map<Seq<char>, Tree>,
    id: Seq<char>,
    input: Seq<(String, Json)>,
    n: nat,
) -> Map<Seq<char>, Tree>
    decreases n,
{
    if n == 0 {
        pool
    } else {
        with_input(pool, id, input, (n - 1) as nat).insert(
            variable(id, input[n - 1].0@),
            input[n - 1].1@,
        )
    }
}

/// The run once it has begun.
pub open spec fn started(g: Graph, s: RunView) -> RunView {
    advanced(g, RunView { status: WorkflowRunStatus::Running, ..s })
}

/// Whether an attempt that failed is retried by itself.
pub open spec fn retries(p: RetryPolicy, used: u64, kind: NodeFailureKind) -> bool {
    p.enabled && used < p.max_retries && kind.retryable()
}

/// When a retry is to be dispatched, in milliseconds.
pub open spec fn due(p: RetryPolicy, now: u64) -> u64 {
    let at = now + p.initial_delay_seconds * 1000;
    if at > u64::MAX {
        u64::MAX
    } else {
        at as u64
    }
}

/// Attempt `r` is running.
pub open spec fn is_running(s: RunView, r: int) -> bool {
    s.status is Running && 0 <= r < s.rows.len() && s.rows[r].stage is Running
}

/// Attempt `r` is waiting and due.
pub open spec fn is_due(s: RunView, r: int, now: u64) -> bool {
    s.status is Running && 0 <= r < s.rows.len() && (s.rows[r].stage matches StageView::Waiting(at)
        && at <= now)
}

/// The run once attempt `r` has failed: a retry takes its place and waits, or the run fails.
pub open spec fn failed(g: Graph, s: RunView, r: int, f: FailureView, now: u64) -> RunView {
    let row = RowView { stage: StageView::Failed(f), ..s.rows[r] };
    let p = policy(g, row.node);
    if retries(p, row.retry, f.kind) {
        let rows = s.rows.update(r, RowView { live: false, ..row });
        RunView {
            rows: rows.push(
                new_row(rows, row.node, row.iteration, (row.retry + 1) as u64, due(p, now)),
            ),
            ..s
        }
    } else {
        fail_run(RunView { rows: s.rows.update(r, row), ..s }, f)
    }
}

/// The run right after the agent of attempt `r` has answered.
pub open spec fn answered(g: Graph, s: RunView, r: int, output: Seq<char>) -> RunView {
    let row = s.rows[r];
    RunView {
        rows: s.rows.update(r, RowView { stage: StageView::Succeeded(output), ..row }),
        phases: s.phases.update(row.node, Phase::Done),
        pool: s.pool.insert(variable(g.node(row.node).id@, "output"@), Tree::Text(output)),
        ..s
    }
}

/// The run once the agent of attempt `r` has answered, and what follows has begun.
pub open spec fn completed(g: Graph, s: RunView, r: int, output: Seq<char>) -> RunView {
    advanced(g, answered(g, s, r, output))
}

/// The run once the process that drove it has been restarted.
pub open spec fn swept(s: RunView) -> RunView {
    if s.status is Running {
        fail_run(s, interruption())
    } else {
        s
    }
}

/// Node `i` was at work, or is a member of one that was.
pub open spec fn at_work(g: Graph, s: RunView, i: int) -> bool {
    s.phases[i] is Active || (g.node(i).parent matches Some(p) && s.phases[p as int] is Active)
}

/// A failed run made ready to go on: the nodes that were at work are idle again, a loop or an
/// iteration with all its members, and their attempts no longer count.
pub open spec fn reset(g: Graph, s: RunView) -> RunView {
    RunView {
        status: WorkflowRunStatus::Running,
        failure: None,
        rows: Seq::new(
            s.rows.len(),
            |r: int|
                if at_work(g, s, s.rows[r].node) {
                    RowView { live: false, ..s.rows[r] }
                } else {
                    s.rows[r]
                },
        ),
        phases: Seq::new(
            s.phases.len(),
            |i: int|
                if at_work(g, s, i) {
                    Phase::Idle
                } else {
                    s.phases[i]
                },
        ),
        ..s
    }
}

/// A failed run that goes on from its failure.
pub open spec fn resumed(g: Graph, s: RunView) -> RunView {
    advanced(g, reset(g, s))
}

/// Each event keeps a run well-formed.
pub proof fn lemma_events(g: Graph, s: RunView)
    requires
        run_wf(g, s),
    ensures
        s.status is Pending ==> run_wf(g, RunView { status: WorkflowRunStatus::Running, ..s }),
        forall|r: int, f: FailureView, now: u64|
            is_running(s, r) ==> run_wf(g, #[trigger] failed(g, s, r, f, now)),
        forall|r: int, output: Seq<char>|
            is_running(s, r) ==> run_wf(g, #[trigger] answered(g, s, r, output)),
        forall|r: int, now: u64|
            #[trigger] is_due(s, r, now) ==> run_wf(g, dispatch(g, s, r)),
        run_wf(g, swept(s)),
        s.status is Failed ==> run_wf(g, reset(g, s)),
{
}

} // verus!
