//! Runs.

use crate::attempts::NodeRun;
use crate::attempts::RowView;
use crate::attempts::Stage;
use crate::attempts::StageView;
use crate::attempts::count_attempts_ran;
use crate::attempts::find_last_failed_attempt;
use crate::attempts::injected_text;
use crate::attempts::last_failed;
use crate::attempts::round_view;
use crate::attempts::rows_view;
use crate::failure::FailureView;
use crate::failure::NodeFailure;
use crate::failure::NodeFailureKind;
use crate::graph::Binding;
use crate::graph::Condition;
use crate::graph::Graph;
use crate::graph::LoopVariable;
use crate::graph::NodeKind;
use crate::graph::RetryPolicy;
use crate::json::Json;
use crate::json::Tree;
use crate::json::trees_of;
use crate::kept::kept;
use crate::kept::lemma_advanced_kept;
use crate::kept::lemma_answered_kept;
use crate::kept::lemma_failed_kept;
use crate::kept::lemma_pending_kept;
use crate::kept::lemma_reset_kept;
use crate::kept::lemma_started_kept;
use crate::kept::lemma_swept_kept;
use crate::kept::lemma_woken_kept;
use crate::model::Phase;
use crate::model::RoundsView;
use crate::model::RunView;
use crate::model::WorkflowRunStatus;
use crate::model::advanced;
use crate::model::all_done;
use crate::model::all_hold;
use crate::model::answered;
use crate::model::at_work;
use crate::model::begin;
use crate::model::bind_round;
use crate::model::bound;
use crate::model::completed;
use crate::model::current_iteration;
use crate::model::dispatch;
use crate::model::due;
use crate::model::fail_run;
use crate::model::failed;
use crate::model::fed_back;
use crate::model::finish;
use crate::model::initialised;
use crate::model::inner_left;
use crate::model::interruption;
use crate::model::is_due;
use crate::model::is_running;
use crate::model::lemma_events;
use crate::model::lemma_step;
use crate::model::lets_pass;
use crate::model::new_row;
use crate::model::next_round;
use crate::model::outer_left;
use crate::model::over_from;
use crate::model::pending;
use crate::model::policy;
use crate::model::ready;
use crate::model::ready_from;
use crate::model::reset;
use crate::model::resumed;
use crate::model::round_over;
use crate::model::rounds_left;
use crate::model::run_wf;
use crate::model::set_phase;
use crate::model::settle;
use crate::model::start_from;
use crate::model::started;
use crate::model::stopped;
use crate::model::swept;
use crate::model::total_rounds;
use crate::model::with_input;
use crate::pool::Pool;
use crate::pool::value_or_null;
use crate::pool::variable;
use crate::pool::variable_text;
use crate::template::render;
use crate::text::same_text;
use vstd::prelude::*;

verus! {

/// The rounds of a loop or an iteration.
struct Rounds {
    round: u64,
    items: Vec<Json>,
    collected: Vec<Json>,
}

impl View for Rounds {
    type V = RoundsView;

    closed spec fn view(&self) -> RoundsView {
        RoundsView {
            round: self.round as nat,
            items: trees_of(self.items@),
            collected: trees_of(self.collected@),
        }
    }
}

/// A run of a workflow.
pub struct Run {
    graph: Graph,
    status: WorkflowRunStatus,
    failure: Option<NodeFailure>,
    rows: Vec<NodeRun>,
    phases: Vec<Phase>,
    rounds: Vec<Rounds>,
    pool: Pool,
}

/// The view of an optional failure.
pub open spec fn failure_view(f: Option<NodeFailure>) -> Option<FailureView> {
    match f {
        Some(f) => Some(f@),
        None => None,
    }
}

impl View for Run {
    type V = RunView;

    closed spec fn view(&self) -> RunView {
        RunView {
            status: self.status,
            failure: failure_view(self.failure),
            rows: rows_view(self.rows@),
            phases: self.phases@,
            rounds: Seq::new(self.rounds@.len(), |i: int| self.rounds@[i]@),
            pool: self.pool@,
        }
    }
}

impl Run {
    /// The run's workflow.
    pub closed spec fn g(self) -> Graph {
        self.graph
    }

    /// The run fits its workflow.
    spec fn shaped(self) -> bool {
        run_wf(self.g(), self@)
    }

    /// The run is well-formed.
    pub open spec fn wf(self) -> bool {
        run_wf(self.g(), self@) && kept(self.g(), self@)
    }

    fn set_stage(&mut self, r: usize, stage: Stage)
        requires
            r < old(self)@.rows.len(),
        ensures
            final(self).g() == old(self).g(),
            final(self)@ == (RunView {
                rows: old(self)@.rows.update(
                    r as int,
                    RowView { stage: stage@, ..old(self)@.rows[r as int] },
                ),
                ..old(self)@
            }),
    {
        self.rows[r].stage = stage;
        assert(self@.rows =~= old(self)@.rows.update(
            r as int,
            RowView { stage: stage@, ..old(self)@.rows[r as int] },
        ));
    }

    fn set_phase(&mut self, i: usize, phase: Phase)
        requires
            i < old(self)@.phases.len(),
        ensures
            final(self).g() == old(self).g(),
            final(self)@ == set_phase(old(self)@, i as int, phase),
    {
        self.phases.set(i, phase);
    }

    fn fail_run(&mut self, f: NodeFailure)
        ensures
            final(self).g() == old(self).g(),
            final(self)@ == fail_run(old(self)@, f@),
    {
        self.status = WorkflowRunStatus::Failed;
        self.failure = Some(f);
        let n: usize = self.rows.len();
        for r in 0..n
            invariant
                n == self.rows@.len(),
                self.graph == old(self).graph,
                self.phases == old(self).phases,
                self.rounds == old(self).rounds,
                self.pool == old(self).pool,
                self.status is Failed,
                self.failure == Some(f),
                self.rows@.len() == old(self).rows@.len(),
                forall|k: int| 0 <= k < r ==> (#[trigger] self.rows@[k])@ == stopped(
                    old(self).rows@[k]@,
                ),
                forall|k: int| r <= k < self.rows@.len() ==> self.rows@[k] == old(self).rows@[k],
        {
            match &self.rows[r].stage {
                Stage::Waiting(_) => {
                    self.rows[r].stage = Stage::Abandoned(interruption_failure());
                },
                Stage::Running => {
                    self.rows[r].stage = Stage::Failed(interruption_failure());
                },
                _ => {},
            }
        }
        assert(self@.rows =~= fail_run(old(self)@, f@).rows);
    }

    fn dispatch(&mut self, r: usize)
        requires
            old(self).shaped(),
            r < old(self)@.rows.len(),
        ensures
            final(self).g() == old(self).g(),
            final(self)@ == dispatch(old(self).g(), old(self)@, r as int),
    {
        let node: usize = self.rows[r].node;
        let iteration = self.rows[r].iteration;
        assert(self@.rows[r as int] == self.rows@[r as int]@);
        let block = injected_text(&self.rows, node, iteration);
        let made = match &self.graph.nodes[node].kind {
            NodeKind::Agent(config) => render(config.prompt.as_str(), &self.pool),
            _ => Err(String::new()),
        };
        match made {
            Ok(base) => {
                let mut prompt = base;
                if let Some(b) = &block {
                    prompt.append("\n\n");
                    prompt.append(b.as_str());
                }
                self.rows[r].prompt = Some(prompt);
                self.rows[r].injected_failure_context = block;
                self.rows[r].session_id = Some(r as u64);
                self.rows[r].stage = Stage::Running;
                assert(self@.rows =~= dispatch(old(self).g(), old(self)@, r as int).rows);
            },
            Err(name) => {
                let f = NodeFailure::new(NodeFailureKind::Variables, name.as_str());
                self.set_stage(r, Stage::Abandoned(f.copied()));
                self.fail_run(f);
            },
        }
    }

    fn push_row(&mut self, node: usize, iteration: Option<u64>, retry: u64, at: u64)
        ensures
            final(self).g() == old(self).g(),
            final(self)@ == (RunView {
                rows: old(self)@.rows.push(
                    new_row(old(self)@.rows, node as int, round_view(iteration), retry, at),
                ),
                ..old(self)@
            }),
    {
        let ran: usize = count_attempts_ran(&self.rows, node, iteration);
        let row = NodeRun {
            node,
            iteration,
            attempt: if (ran as u64) < u64::MAX {
                ran as u64 + 1
            } else {
                u64::MAX
            },
            retry,
            stage: Stage::Waiting(at),
            live: true,
            prompt: None,
            injected_failure_context: None,
            session_id: None,
        };
        self.rows.push(row);
        assert(self@.rows =~= old(self)@.rows.push(
            new_row(old(self)@.rows, node as int, round_view(iteration), retry, at),
        ));
    }

    fn is_ready(&self, i: usize) -> (b: bool)
        requires
            self.shaped(),
            i < self.g().size(),
        ensures
            b == ready(self.g(), self@, i as int),
    {
        if self.phases[i] != Phase::Idle {
            return false;
        }
        let parent = self.graph.nodes[i].parent;
        if let Some(p) = parent {
            if self.phases[p] != Phase::Active {
                return false;
            }
        }
        for k in 0..self.graph.edges.len()
            invariant
                self.shaped(),
                i < self.g().size(),
                parent == self.g().node(i as int).parent,
                forall|j: int| #![trigger self.graph.edges@[j]]
                    0 <= j < k && self.graph.edges@[j].1 == i ==> lets_pass(
                        self.g(),
                        self@,
                        self.graph.edges@[j].0 as int,
                        i as int,
                    ),
        {
            let (source, target) = self.graph.edges[k];
            if target == i {
                let contains = match parent {
                    Some(p) => p == source,
                    None => false,
                };
                if !contains && self.phases[source] != Phase::Done {
                    assert(!lets_pass(
                        self.g(),
                        self@,
                        self.graph.edges@[k as int].0 as int,
                        i as int,
                    ));
                    return false;
                }
            }
        }
        true
    }

    fn is_round_over(&self, i: usize) -> (b: bool)
        requires
            self.shaped(),
            i < self.g().size(),
        ensures
            b == round_over(self.g(), self@, i as int),
    {
        if !self.graph.nodes[i].kind.is_composite() || self.phases[i] != Phase::Active {
            return false;
        }
        for j in 0..self.graph.nodes.len()
            invariant
                self.shaped(),
                i < self.g().size(),
                forall|k: int| #![trigger self.g().member(k, i as int)]
                    0 <= k < j && self.g().member(k, i as int) ==> self@.phases[k] is Done,
        {
            let member = match self.graph.nodes[j].parent {
                Some(p) => p == i,
                None => false,
            };
            assert(member == self.g().member(j as int, i as int));
            if member && self.phases[j] != Phase::Done {
                return false;
            }
        }
        true
    }

    fn bind_round(&mut self, i: usize)
        requires
            i < old(self).g().size(),
            old(self)@.rounds.len() == old(self).g().size(),
            old(self).g().node(i as int).kind is Iteration ==> old(self)@.rounds[i as int].round
                < old(self)@.rounds[i as int].items.len(),
        ensures
            final(self).g() == old(self).g(),
            final(self)@ == bind_round(old(self).g(), old(self)@, i as int),
    {
        if let NodeKind::Iteration(_) = &self.graph.nodes[i].kind {
            let round: u64 = self.rounds[i].round;
            assert(self@.rounds[i as int] == self.rounds@[i as int]@);
            let len: usize = self.rounds[i].items.len();
            assert(round < len);
            let item = self.rounds[i].items[round as usize].copied();
            assert(item@ == self@.rounds[i as int].items[round as int]);
            self.pool.set(variable_text(self.graph.nodes[i].id.as_str(), "item"), item);
            self.pool.set(
                variable_text(self.graph.nodes[i].id.as_str(), "index"),
                Json::count(round),
            );
        }
    }

    fn finish(&mut self, i: usize)
        requires
            old(self).g().wf(),
            i < old(self).g().size(),
            old(self)@.phases.len() == old(self).g().size(),
            old(self)@.rounds.len() == old(self).g().size(),
        ensures
            final(self).g() == old(self).g(),
            final(self)@ == finish(old(self).g(), old(self)@, i as int),
    {
        assert(self@.rounds[i as int] == self.rounds@[i as int]@);
        match &self.graph.nodes[i].kind {
            NodeKind::Loop(config) => {
                bind_all(&mut self.pool, &config.outputs);
                self.phases.set(i, Phase::Done);
            },
            NodeKind::Iteration(_) => {
                let collected = copied_all(&self.rounds[i].collected);
                self.pool.set(
                    variable_text(self.graph.nodes[i].id.as_str(), "output"),
                    Json::Array(collected),
                );
                self.phases.set(i, Phase::Done);
            },
            _ => {},
        }
    }

    fn next_round(&mut self, i: usize)
        requires
            old(self).shaped(),
            i < old(self).g().size(),
            old(self)@.rounds[i as int].round < u64::MAX,
            old(self).g().node(i as int).kind is Iteration ==> old(self)@.rounds[i as int].round + 1
                < old(self)@.rounds[i as int].items.len(),
        ensures
            final(self).g() == old(self).g(),
            final(self)@ == next_round(old(self).g(), old(self)@, i as int),
    {
        assert(self@.rounds[i as int] == self.rounds@[i as int]@);
        self.rounds[i].round = self.rounds[i].round + 1;
        let ghost rounds = self@.rounds;
        assert(rounds =~= old(self)@.rounds.update(
            i as int,
            RoundsView {
                round: old(self)@.rounds[i as int].round + 1,
                ..old(self)@.rounds[i as int]
            },
        ));
        let n: usize = self.graph.nodes.len();
        for j in 0..n
            invariant
                n == self.g().size(),
                self.g() == old(self).g(),
                self.phases@.len() == n,
                old(self).phases@.len() == n,
                self@ == (RunView { phases: self.phases@, rounds, ..old(self)@ }),
                forall|k: int| #![trigger self.phases@[k]]
                    0 <= k < j ==> self.phases@[k] == (if self.g().member(k, i as int) {
                        Phase::Idle
                    } else {
                        old(self).phases@[k]
                    }),
                forall|k: int| j <= k < n ==> self.phases@[k] == old(self).phases@[k],
        {
            if let Some(p) = self.graph.nodes[j].parent {
                if p == i {
                    self.phases.set(j, Phase::Idle);
                }
            }
        }
        assert(self.phases@ =~= Seq::new(
            old(self)@.phases.len(),
            |j: int|
                if self.g().member(j, i as int) {
                    Phase::Idle
                } else {
                    old(self)@.phases[j]
                },
        ));
        self.bind_round(i);
    }

    fn settle(&mut self, i: usize)
        requires
            old(self).shaped(),
            old(self)@.status is Running,
            i < old(self).g().size(),
            round_over(old(self).g(), old(self)@, i as int),
        ensures
            final(self).g() == old(self).g(),
            final(self)@ == settle(old(self).g(), old(self)@, i as int),
    {
        assert(self@.rounds[i as int] == self.rounds@[i as int]@);
        let round: u64 = self.rounds[i].round;
        assert(round < total_rounds(self.g(), self@, i as int));
        match &self.graph.nodes[i].kind {
            NodeKind::Loop(config) => {
                if check_all(&self.pool, &config.until) || round + 1 >= config.max_iterations {
                    self.finish(i);
                } else {
                    feed_back_all(&mut self.pool, &config.variables);
                    self.next_round(i);
                }
            },
            NodeKind::Iteration(config) => {
                let value = self.pool.value(config.collect.as_str());
                let len: usize = self.rounds[i].items.len();
                self.rounds[i].collected.push(value);
                proof {
                    let c = self.rounds@[i as int].collected@;
                    assert(trees_of(c) =~= old(self)@.rounds[i as int].collected.push(value@));
                    assert(self@.rounds =~= old(self)@.rounds.update(
                        i as int,
                        RoundsView {
                            collected: old(self)@.rounds[i as int].collected.push(value@),
                            ..old(self)@.rounds[i as int]
                        },
                    ));
                }
                if round + 1 >= len as u64 {
                    self.finish(i);
                } else {
                    self.next_round(i);
                }
            },
            _ => {},
        }
    }

    fn begin(&mut self, i: usize)
        requires
            old(self).shaped(),
            old(self)@.status is Running,
            i < old(self).g().size(),
            ready(old(self).g(), old(self)@, i as int),
        ensures
            final(self).g() == old(self).g(),
            final(self)@ == begin(old(self).g(), old(self)@, i as int),
    {
        match &self.graph.nodes[i].kind {
            NodeKind::Start => {
                self.set_phase(i, Phase::Done);
            },
            NodeKind::Output(bs) => {
                bind_all(&mut self.pool, bs);
                self.phases.set(i, Phase::Done);
            },
            NodeKind::Agent(_) => {
                let iteration = match self.graph.nodes[i].parent {
                    Some(p) => Some(self.rounds[p].round),
                    None => None,
                };
                assert(round_view(iteration) == current_iteration(self.g(), self@, i as int));
                let r: usize = self.rows.len();
                self.push_row(i, iteration, 0, 0);
                self.set_phase(i, Phase::Active);
                self.dispatch(r);
            },
            NodeKind::Loop(config) => {
                initialise_all(&mut self.pool, &config.variables);
                let rounds = config.max_iterations;
                self.rounds.set(i, Rounds { round: 0, items: Vec::new(), collected: Vec::new() });
                self.phases.set(i, Phase::Active);
                proof {
                    assert(trees_of(Seq::<Json>::empty()) =~= Seq::empty());
                    assert(self@.rounds =~= old(self)@.rounds.update(
                        i as int,
                        RoundsView { round: 0, items: Seq::empty(), collected: Seq::empty() },
                    ));
                }
                if rounds == 0 {
                    self.finish(i);
                }
            },
            NodeKind::Iteration(config) => {
                let found = match self.pool.get(config.iterator.as_str()) {
                    Some(Json::Array(items)) => Some(copied_all(items)),
                    _ => None,
                };
                match found {
                    Some(items) => {
                        let empty = items.len() == 0;
                        self.rounds.set(i, Rounds { round: 0, items, collected: Vec::new() });
                        self.phases.set(i, Phase::Active);
                        proof {
                            assert(trees_of(Seq::<Json>::empty()) =~= Seq::empty());
                            assert(self@.rounds =~= old(self)@.rounds.update(
                                i as int,
                                RoundsView {
                                    round: 0,
                                    items: trees_of(items@),
                                    collected: Seq::empty(),
                                },
                            ));
                        }
                        if empty {
                            self.finish(i);
                        } else {
                            self.bind_round(i);
                        }
                    },
                    None => {
                        let f = NodeFailure::new(
                            NodeFailureKind::Variables,
                            config.iterator.as_str(),
                        );
                        self.set_phase(i, Phase::Active);
                        self.fail_run(f);
                    },
                }
            },
        }
    }

    fn first_ready(&self) -> (r: Option<usize>)
        requires
            self.shaped(),
        ensures
            match r {
                Some(i) => ready_from(self.g(), self@, 0) == Some(i as int) && i < self.g().size()
                    && ready(self.g(), self@, i as int),
                None => ready_from(self.g(), self@, 0) is None,
            },
    {
        for i in 0..self.graph.nodes.len()
            invariant
                self.shaped(),
                ready_from(self.g(), self@, 0) == ready_from(self.g(), self@, i as int),
        {
            if self.is_ready(i) {
                return Some(i);
            }
        }
        None
    }

    fn first_over(&self) -> (r: Option<usize>)
        requires
            self.shaped(),
        ensures
            match r {
                Some(i) => over_from(self.g(), self@, 0) == Some(i as int) && i < self.g().size()
                    && round_over(self.g(), self@, i as int),
                None => over_from(self.g(), self@, 0) is None,
            },
    {
        for i in 0..self.graph.nodes.len()
            invariant
                self.shaped(),
                over_from(self.g(), self@, 0) == over_from(self.g(), self@, i as int),
        {
            if self.is_round_over(i) {
                return Some(i);
            }
        }
        None
    }

    fn is_all_done(&self) -> (b: bool)
        requires
            self.shaped(),
        ensures
            b == all_done(self.g(), self@),
    {
        for i in 0..self.graph.nodes.len()
            invariant
                self.shaped(),
                forall|k: int| #![trigger self@.phases[k]]
                    0 <= k < i && self.g().node(k).parent is None ==> self@.phases[k] is Done,
        {
            if self.graph.nodes[i].parent.is_none() && self.phases[i] != Phase::Done {
                assert(self@.phases[i as int] !is Done);
                return false;
            }
        }
        true
    }

    fn advance(&mut self)
        requires
            old(self).shaped(),
        ensures
            final(self).g() == old(self).g(),
            final(self)@ == advanced(old(self).g(), old(self)@),
            final(self).shaped(),
    {
        while self.status == WorkflowRunStatus::Running
            invariant
                self.shaped(),
                self.g() == old(self).g(),
                advanced(old(self).g(), old(self)@) == advanced(self.g(), self@),
            decreases
                outer_left(self.g(), self@),
                rounds_left(self.g(), self@),
                inner_left(self.g(), self@),
        {
            proof {
                lemma_step(self.g(), self@);
            }
            match self.first_ready() {
                Some(i) => {
                    self.begin(i);
                },
                None => match self.first_over() {
                    Some(i) => {
                        self.settle(i);
                    },
                    None => {
                        if self.is_all_done() {
                            self.status = WorkflowRunStatus::Succeeded;
                        }
                        return;
                    },
                },
            }
        }
    }
}

/// Whether a failed run went on.
#[derive(Clone, Copy, Debug, PartialEq, Eq, Structural)]
pub enum ResumeWorkflowRunResult {
    Resumed,
    /// The run had not failed.
    NotFailed,
}

/// When a retry is to be dispatched.
fn due_at(p: RetryPolicy, now: u64) -> (at: u64)
    ensures
        at == due(p, now),
{
    let wait: u128 = p.initial_delay_seconds as u128 * 1000;
    let at: u128 = now as u128 + wait;
    if at > u64::MAX as u128 {
        u64::MAX
    } else {
        at as u64
    }
}

impl Run {
    /// A run of the workflow that has not begun.
    pub fn new(graph: Graph) -> (run: Run)
        requires
            graph.wf(),
        ensures
            run.g() == graph,
            run@ == pending(graph),
            run.wf(),
    {
        let mut phases: Vec<Phase> = Vec::new();
        let mut rounds: Vec<Rounds> = Vec::new();
        let n: usize = graph.nodes.len();
        for i in 0..n
            invariant
                phases@.len() == i,
                rounds@.len() == i,
                forall|k: int| 0 <= k < i ==> phases@[k] is Idle,
                forall|k: int| 0 <= k < i ==> (#[trigger] rounds@[k])@ == (RoundsView {
                    round: 0,
                    items: Seq::empty(),
                    collected: Seq::empty(),
                }),
        {
            phases.push(Phase::Idle);
            let fresh = Rounds { round: 0, items: Vec::new(), collected: Vec::new() };
            assert(trees_of(Seq::<Json>::empty()) =~= Seq::empty());
            rounds.push(fresh);
        }
        let run = Run {
            graph,
            status: WorkflowRunStatus::Pending,
            failure: None,
            rows: Vec::new(),
            phases,
            rounds,
            pool: Pool::new(),
        };
        assert(run@.rows =~= pending(graph).rows);
        assert(run@.phases =~= pending(graph).phases);
        assert(run@.rounds =~= pending(graph).rounds);
        proof {
            lemma_pending_kept(graph);
        }
        run
    }

    /// Sets the input variables of a run that has not begun, as variables of its first start node
    /// outside of loops and iterations. Says whether it did.
    pub fn update_run_input(&mut self, input: Vec<(String, Json)>) -> (accepted: bool)
        requires
            old(self).wf(),
        ensures
            final(self).g() == old(self).g(),
            final(self).wf(),
            accepted == (old(self)@.status is Pending && start_from(old(self).g(), 0) is Some),
            final(self)@ == if accepted {
                RunView {
                    pool: with_input(
                        old(self)@.pool,
                        old(self).g().node(start_from(old(self).g(), 0)->0).id@,
                        input@,
                        input@.len(),
                    ),
                    ..old(self)@
                }
            } else {
                old(self)@
            },
    {
        if self.status != WorkflowRunStatus::Pending {
            return false;
        }
        let n: usize = self.graph.nodes.len();
        for i in 0..n
            invariant
                n == self.g().size(),
                *self == *old(self),
                self.wf(),
                self@.status is Pending,
                start_from(self.g(), 0) == start_from(self.g(), i as int),
        {
            let is_start = match self.graph.nodes[i].kind {
                NodeKind::Start => true,
                _ => false,
            };
            if is_start && self.graph.nodes[i].parent.is_none() {
                for k in 0..input.len()
                    invariant
                        i < self.g().size(),
                        self.g() == old(self).g(),
                        self@ == (RunView {
                            pool: with_input(
                                old(self)@.pool,
                                old(self).g().node(i as int).id@,
                                input@,
                                k as nat,
                            ),
                            ..old(self)@
                        }),
                {
                    let name = variable_text(
                        self.graph.nodes[i].id.as_str(),
                        input[k].0.as_str(),
                    );
                    self.pool.set(name, input[k].1.copied());
                }
                return true;
            }
        }
        false
    }

    /// Begins the run. Says whether it did: a run begins once.
    pub fn start(&mut self) -> (accepted: bool)
        requires
            old(self).wf(),
        ensures
            final(self).g() == old(self).g(),
            final(self).wf(),
            accepted == (old(self)@.status is Pending),
            final(self)@ == if accepted {
                started(old(self).g(), old(self)@)
            } else {
                old(self)@
            },
    {
        if self.status != WorkflowRunStatus::Pending {
            return false;
        }
        proof {
            lemma_events(self.g(), self@);
            lemma_started_kept(self.g(), self@);
            lemma_advanced_kept(
                self.g(),
                RunView { status: WorkflowRunStatus::Running, ..self@ },
            );
        }
        self.status = WorkflowRunStatus::Running;
        self.advance();
        true
    }

    /// Takes in that attempt `row` failed at the time `now`, in milliseconds: a retry takes its
    /// place and waits, or the run fails. Says whether the attempt was running.
    pub fn fail_node(&mut self, row: usize, failure: NodeFailure, now: u64) -> (accepted: bool)
        requires
            old(self).wf(),
        ensures
            final(self).g() == old(self).g(),
            final(self).wf(),
            accepted == is_running(old(self)@, row as int),
            final(self)@ == if accepted {
                failed(old(self).g(), old(self)@, row as int, failure@, now)
            } else {
                old(self)@
            },
    {
        if !self.has_running(row) {
            return false;
        }
        proof {
            lemma_events(self.g(), self@);
            lemma_failed_kept(self.g(), self@, row as int, failure@, now);
        }
        assert(self@.rows[row as int] == self.rows@[row as int]@);
        let node: usize = self.rows[row].node;
        let retry: u64 = self.rows[row].retry;
        let iteration = self.rows[row].iteration;
        let p = match &self.graph.nodes[node].kind {
            NodeKind::Agent(config) => config.retry,
            _ => RetryPolicy { enabled: false, max_retries: 0, initial_delay_seconds: 0 },
        };
        assert(p == policy(self.g(), node as int));
        let retryable = match failure.kind {
            NodeFailureKind::Session => true,
            NodeFailureKind::StructuredOutput => true,
            _ => false,
        };
        if p.enabled && retry < p.max_retries && retryable {
            self.set_stage(row, Stage::Failed(failure));
            let ghost rows = self@.rows;
            assert(rows[row as int] == self.rows@[row as int]@);
            self.rows[row].live = false;
            assert(self@.rows =~= rows.update(
                row as int,
                RowView { live: false, ..rows[row as int] },
            ));
            assert(self@.rows =~= old(self)@.rows.update(
                row as int,
                RowView {
                    live: false,
                    stage: StageView::Failed(failure@),
                    ..old(self)@.rows[row as int]
                },
            ));
            self.push_row(node, iteration, retry + 1, due_at(p, now));
        } else {
            self.set_stage(row, Stage::Failed(failure.copied()));
            self.fail_run(failure);
        }
        true
    }

    /// Hands the waiting attempt `row` to its agent, once it is due. Says whether it did.
    pub fn wake(&mut self, row: usize, now: u64) -> (accepted: bool)
        requires
            old(self).wf(),
        ensures
            final(self).g() == old(self).g(),
            final(self).wf(),
            accepted == is_due(old(self)@, row as int, now),
            final(self)@ == if accepted {
                dispatch(old(self).g(), old(self)@, row as int)
            } else {
                old(self)@
            },
    {
        if self.status != WorkflowRunStatus::Running || row >= self.rows.len() {
            return false;
        }
        assert(self@.rows[row as int] == self.rows@[row as int]@);
        let due = match &self.rows[row].stage {
            Stage::Waiting(at) => *at <= now,
            _ => false,
        };
        if !due {
            return false;
        }
        proof {
            lemma_events(self.g(), self@);
            assert(is_due(self@, row as int, now));
            lemma_woken_kept(self.g(), self@, row as int, now);
        }
        self.dispatch(row);
        true
    }

    /// Takes in that the agent of attempt `row` answered, and begins what follows. Says whether
    /// the attempt was running.
    pub fn complete_node(&mut self, row: usize, output: String) -> (accepted: bool)
        requires
            old(self).wf(),
        ensures
            final(self).g() == old(self).g(),
            final(self).wf(),
            accepted == is_running(old(self)@, row as int),
            final(self)@ == if accepted {
                completed(old(self).g(), old(self)@, row as int, output@)
            } else {
                old(self)@
            },
    {
        if !self.has_running(row) {
            return false;
        }
        proof {
            lemma_events(self.g(), self@);
            assert(run_wf(self.g(), answered(self.g(), self@, row as int, output@)));
            lemma_answered_kept(self.g(), self@, row as int, output@);
            lemma_advanced_kept(self.g(), answered(self.g(), self@, row as int, output@));
        }
        assert(self@.rows[row as int] == self.rows@[row as int]@);
        let node: usize = self.rows[row].node;
        let name = variable_text(self.graph.nodes[node].id.as_str(), "output");
        self.pool.set(name, Json::Text(output.clone()));
        self.set_phase(node, Phase::Done);
        self.set_stage(row, Stage::Succeeded(output));
        self.advance();
        true
    }

    /// Takes in that the process that drove the run was restarted: a run that was running has
    /// failed, and its open attempts are over. Says whether it was running.
    pub fn sweep_one_run(&mut self) -> (accepted: bool)
        requires
            old(self).wf(),
        ensures
            final(self).g() == old(self).g(),
            final(self).wf(),
            accepted == (old(self)@.status is Running),
            final(self)@ == swept(old(self)@),
    {
        if self.status != WorkflowRunStatus::Running {
            return false;
        }
        proof {
            lemma_events(self.g(), self@);
            lemma_swept_kept(self.g(), self@);
        }
        self.fail_run(interruption_failure());
        true
    }

    /// Lets a failed run go on: the nodes that were at work when it failed begin again, a loop or
    /// an iteration with its first round.
    pub fn resume_from_failure(&mut self) -> (r: ResumeWorkflowRunResult)
        requires
            old(self).wf(),
        ensures
            final(self).g() == old(self).g(),
            final(self).wf(),
            r is Resumed <==> old(self)@.status is Failed,
            final(self)@ == if r is Resumed {
                resumed(old(self).g(), old(self)@)
            } else {
                old(self)@
            },
    {
        if self.status != WorkflowRunStatus::Failed {
            return ResumeWorkflowRunResult::NotFailed;
        }
        proof {
            lemma_events(self.g(), self@);
            lemma_reset_kept(self.g(), self@);
            lemma_advanced_kept(self.g(), reset(self.g(), self@));
        }
        let n: usize = self.rows.len();
        for r in 0..n
            invariant
                n == self.rows@.len(),
                self.shaped(),
                self.g() == old(self).g(),
                old(self)@.rows.len() == n,
                self@ == (RunView { rows: self@.rows, ..old(self)@ }),
                forall|k: int| #![trigger self@.rows[k]]
                    0 <= k < r ==> self@.rows[k] == reset(old(self).g(), old(self)@).rows[k],
                forall|k: int| r <= k < n ==> self@.rows[k] == old(self)@.rows[k],
        {
            assert(self@.rows[r as int] == self.rows@[r as int]@);
            let node: usize = self.rows[r].node;
            let ghost rows = self@.rows;
            if self.was_at_work(node) {
                self.rows[r].live = false;
            }
            assert(self@.rows =~= rows.update(
                r as int,
                reset(old(self).g(), old(self)@).rows[r as int],
            ));
        }
        assert(self@.rows =~= reset(old(self).g(), old(self)@).rows);
        let m: usize = self.graph.nodes.len();
        let mut phases: Vec<Phase> = Vec::new();
        for i in 0..m
            invariant
                m == self.g().size(),
                self.shaped(),
                self.g() == old(self).g(),
                self@.phases == old(self)@.phases,
                phases@.len() == i,
                forall|k: int| 0 <= k < i ==> #[trigger] phases@[k] == reset(
                    old(self).g(),
                    old(self)@,
                ).phases[k],
        {
            if self.was_at_work(i) {
                phases.push(Phase::Idle);
            } else {
                phases.push(self.phases[i]);
            }
        }
        assert(phases@ =~= reset(old(self).g(), old(self)@).phases);
        self.phases = phases;
        self.status = WorkflowRunStatus::Running;
        self.failure = None;
        self.advance();
        ResumeWorkflowRunResult::Resumed
    }

    fn has_running(&self, row: usize) -> (b: bool)
        ensures
            b == is_running(self@, row as int),
    {
        if self.status != WorkflowRunStatus::Running || row >= self.rows.len() {
            return false;
        }
        assert(self@.rows[row as int] == self.rows@[row as int]@);
        match &self.rows[row].stage {
            Stage::Running => true,
            _ => false,
        }
    }

    fn was_at_work(&self, i: usize) -> (b: bool)
        requires
            self.shaped(),
            i < self.g().size(),
        ensures
            b == at_work(self.g(), self@, i as int),
    {
        if self.phases[i] == Phase::Active {
            return true;
        }
        match self.graph.nodes[i].parent {
            Some(p) => self.phases[p] == Phase::Active,
            None => false,
        }
    }
}

impl Run {
    /// The run's workflow.
    pub fn graph(&self) -> (g: &Graph)
        ensures
            *g == self.g(),
    {
        &self.graph
    }

    /// How far the run has come.
    pub fn status(&self) -> (status: WorkflowRunStatus)
        ensures
            status == self@.status,
    {
        self.status
    }

    /// Why the run failed.
    pub fn failure(&self) -> (f: Option<&NodeFailure>)
        ensures
            self@.failure == match f {
                Some(f) => Some(f@),
                None => None,
            },
    {
        match &self.failure {
            Some(f) => Some(f),
            None => None,
        }
    }

    /// All attempts that were ever made, oldest first. An attempt's place is its id.
    pub fn list_node_runs(&self) -> (rows: &Vec<NodeRun>)
        ensures
            rows_view(rows@) == self@.rows,
    {
        &self.rows
    }

    /// The value of a variable.
    pub fn variable(&self, name: &str) -> (r: Option<&Json>)
        ensures
            match r {
                Some(v) => self@.pool.dom().contains(name@) && self@.pool[name@] == v@,
                None => !self@.pool.dom().contains(name@),
            },
    {
        self.pool.get(name)
    }

    /// The index of the node with the given id.
    pub fn node_index(&self, id: &str) -> (r: Option<usize>)
        ensures
            match r {
                Some(i) => named_from(self.g(), id@, 0) == Some(i as int) && i < self.g().size(),
                None => named_from(self.g(), id@, 0) is None,
            },
    {
        for i in 0..self.graph.nodes.len()
            invariant
                named_from(self.g(), id@, 0) == named_from(self.g(), id@, i as int),
        {
            if same_text(self.graph.nodes[i].id.as_str(), id) {
                return Some(i);
            }
        }
        None
    }

    /// The failed attempt that a new attempt at the node in the round follows, if there is one.
    pub fn find_last_failed_attempt(&self, node_id: &str, iteration: Option<u64>) -> (r: Option<
        usize,
    >)
        ensures
            match named_from(self.g(), node_id@, 0) {
                Some(node) => match r {
                    Some(i) => last_failed(self@.rows, node, round_view(iteration)) == Some(i as int),
                    None => last_failed(self@.rows, node, round_view(iteration)) is None,
                },
                None => r is None,
            },
    {
        match self.node_index(node_id) {
            Some(node) => find_last_failed_attempt(&self.rows, node, iteration),
            None => None,
        }
    }

    /// The attempts at a node that still count, oldest first.
    pub fn rows_of(&self, node_id: &str) -> (r: Vec<usize>)
        ensures
            r@.len() == live_rows(self.g(), self@, node_id@, self@.rows.len()).len(),
            forall|k: int| #![trigger r@[k]]
                0 <= k < r@.len() ==> live_rows(self.g(), self@, node_id@, self@.rows.len())[k]
                    == r@[k],
            forall|k: int| #![trigger r@[k]] 0 <= k < r@.len() ==> r@[k] < self@.rows.len(),
    {
        let mut r: Vec<usize> = Vec::new();
        let node = self.node_index(node_id);
        for i in 0..self.rows.len()
            invariant
                match node {
                    Some(n) => named_from(self.g(), node_id@, 0) == Some(n as int),
                    None => named_from(self.g(), node_id@, 0) is None,
                },
                r@.len() == live_rows(self.g(), self@, node_id@, i as nat).len(),
                forall|k: int| #![trigger r@[k]]
                    0 <= k < r@.len() ==> live_rows(self.g(), self@, node_id@, i as nat)[k] == r@[k]
                        && r@[k] < i,
        {
            assert(self@.rows[i as int] == self.rows@[i as int]@);
            let counts = match node {
                Some(n) => self.rows[i].node == n && self.rows[i].live,
                None => false,
            };
            if counts {
                r.push(i);
            }
        }
        r
    }

    /// The attempts that ran and failed, oldest first.
    pub fn failed_attempts(&self) -> (r: Vec<usize>)
        ensures
            forall|i: int| #![trigger self@.rows[i]]
                0 <= i < self@.rows.len() ==> (self@.rows[i].stage is Failed <==> r@.contains(
                    i as usize,
                )),
            forall|k: int| #![trigger r@[k]] 0 <= k < r@.len() ==> r@[k] < self@.rows.len(),
            forall|j: int, k: int| #![trigger r@[j], r@[k]] 0 <= j < k < r@.len() ==> r@[j] < r@[k],
    {
        let mut r: Vec<usize> = Vec::new();
        for i in 0..self.rows.len()
            invariant
                forall|k: int| #![trigger r@[k]] 0 <= k < r@.len() ==> r@[k] < i,
                forall|j: int, k: int| #![trigger r@[j], r@[k]]
                    0 <= j < k < r@.len() ==> r@[j] < r@[k],
                forall|k: int| #![trigger self@.rows[k]]
                    0 <= k < i ==> (self@.rows[k].stage is Failed <==> r@.contains(k as usize)),
        {
            assert(self@.rows[i as int] == self.rows@[i as int]@);
            let ghost before = r@;
            if let Stage::Failed(_) = &self.rows[i].stage {
                r.push(i);
                proof {
                    assert(r@[before.len() as int] == i);
                    assert forall|k: int| #![trigger self@.rows[k]] 0 <= k < i implies (
                    self@.rows[k].stage is Failed <==> r@.contains(k as usize)) by {
                        if before.contains(k as usize) {
                            let j = choose|j: int| 0 <= j < before.len() && before[j] == k as usize;
                            assert(r@[j] == k as usize);
                        }
                    }
                }
            }
        }
        r
    }
}

/// The first node from `i` on that has the id.
pub open spec fn named_from(g: Graph, id: Seq<char>, i: int) -> Option<int>
    decreases g.size() - i,
{
    if i >= g.size() {
        None
    } else if g.node(i).id@ == id {
        Some(i)
    } else {
        named_from(g, id, i + 1)
    }
}

/// Which of the first `n` attempts are at the node and still count.
pub open spec fn live_rows(g: Graph, s: RunView, node_id: Seq<char>, n: nat) -> Seq<int>
    decreases n,
{
    if n == 0 {
        Seq::empty()
    } else {
        let front = live_rows(g, s, node_id, (n - 1) as nat);
        if named_from(g, node_id, 0) == Some(s.rows[n - 1].node) && s.rows[n - 1].live {
            front.push(n - 1)
        } else {
            front
        }
    }
}

/// Sets each binding's variable in turn.
fn bind_all(pool: &mut Pool, bs: &Vec<Binding>)
    ensures
        final(pool)@ == bound(old(pool)@, bs@, bs@.len()),
{
    for k in 0..bs.len()
        invariant
            pool@ == bound(old(pool)@, bs@, k as nat),
    {
        let value = pool.value(bs[k].source.as_str());
        pool.set(bs[k].name.clone(), value);
    }
}

/// Sets each loop variable to its initial value.
fn initialise_all(pool: &mut Pool, vs: &Vec<LoopVariable>)
    ensures
        final(pool)@ == initialised(old(pool)@, vs@, vs@.len()),
{
    for k in 0..vs.len()
        invariant
            pool@ == initialised(old(pool)@, vs@, k as nat),
    {
        pool.set(vs[k].name.clone(), vs[k].initial.copied());
    }
}

/// Feeds each loop variable back.
fn feed_back_all(pool: &mut Pool, vs: &Vec<LoopVariable>)
    ensures
        final(pool)@ == fed_back(old(pool)@, vs@, vs@.len()),
{
    for k in 0..vs.len()
        invariant
            pool@ == fed_back(old(pool)@, vs@, k as nat),
    {
        let value = pool.value(vs[k].feedback.as_str());
        pool.set(vs[k].name.clone(), value);
    }
}

/// Whether all conditions hold.
fn check_all(pool: &Pool, cs: &Vec<Condition>) -> (b: bool)
    ensures
        b == all_hold(pool@, cs@),
{
    for k in 0..cs.len()
        invariant
            forall|j: int| #![trigger cs@[j]]
                0 <= j < k ==> value_or_null(pool@, cs@[j].variable@) == Tree::Text(cs@[j].value@),
    {
        let holds = match pool.get(cs[k].variable.as_str()) {
            Some(Json::Text(s)) => same_text(s.as_str(), cs[k].value.as_str()),
            _ => false,
        };
        if !holds {
            assert(value_or_null(pool@, cs@[k as int].variable@) != Tree::Text(
                cs@[k as int].value@,
            ));
            return false;
        }
    }
    true
}

/// Copies of a vector of documents.
fn copied_all(items: &Vec<Json>) -> (out: Vec<Json>)
    ensures
        trees_of(out@) == trees_of(items@),
{
    let mut out: Vec<Json> = Vec::new();
    for i in 0..items.len()
        invariant
            out@.len() == i,
            forall|k: int| 0 <= k < i ==> (#[trigger] out@[k])@ == items@[k]@,
    {
        out.push(items[i].copied());
    }
    assert(trees_of(out@) =~= trees_of(items@));
    out
}

fn interruption_failure() -> (f: NodeFailure)
    ensures
        f@ == interruption(),
{
    NodeFailure::new(
        NodeFailureKind::Interrupted,
        "the run stopped before the attempt was over",
    )
}

} // verus!
