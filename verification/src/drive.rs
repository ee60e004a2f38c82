//! Answering for agents, and reading off what became of them.

use crate::attempts::NodeRun;
use crate::attempts::RowView;
use crate::attempts::Stage;
use crate::attempts::StageView;
use crate::attempts::rows_view;
use crate::failure::text_view;
use crate::graph::Graph;
use crate::graph::NodeKind;
use crate::model::RunView;
use crate::model::completed;
use crate::model::is_running;
use crate::model::policy;
use crate::run::Run;
use crate::run::live_rows;
use crate::run::named_from;
use crate::text::decimal;
use crate::text::decimal_text;
use vstd::prelude::*;

verus! {

/// Which of the first `n` attempts are running at the node.
pub open spec fn running_rows(g: Graph, s: RunView, node_id: Seq<char>, n: nat) -> Seq<int>
    decreases n,
{
    if n == 0 {
        Seq::empty()
    } else {
        let front = running_rows(g, s, node_id, (n - 1) as nat);
        if named_from(g, node_id, 0) == Some(s.rows[n - 1].node) && s.rows[n - 1].stage is Running {
            front.push(n - 1)
        } else {
            front
        }
    }
}

/// What the agent of an attempt is made to answer: `out-` and the round.
pub open spec fn round_answer(row: RowView) -> Seq<char> {
    "out-"@ + decimal(
        match row.iteration {
            Some(k) => k,
            None => 0,
        },
    )
}

/// The run after the first `n` of the given attempts, as far as they are running when their turn
/// comes, have been answered.
pub open spec fn answered_each(g: Graph, s: RunView, rows: Seq<int>, n: nat) -> RunView
    decreases n,
{
    if n == 0 {
        s
    } else {
        let t = answered_each(g, s, rows, (n - 1) as nat);
        let r = rows[n - 1];
        if is_running(t, r) {
            completed(g, t, r, round_answer(t.rows[r]))
        } else {
            t
        }
    }
}

/// Completes every attempt at `fix` that is running, so that its iteration can go into the next
/// round.
pub fn complete_running_fix(run: &mut Run)
    requires
        old(run).wf(),
    ensures
        final(run).g() == old(run).g(),
        final(run).wf(),
        ({
            let rows = running_rows(old(run).g(), old(run)@, "fix"@, old(run)@.rows.len());
            final(run)@ == answered_each(old(run).g(), old(run)@, rows, rows.len())
        }),
{
    let rows = find_running(run, "fix");
    let ghost ids = running_rows(run.g(), run@, "fix"@, run@.rows.len());
    for k in 0..rows.len()
        invariant
            run.wf(),
            run.g() == old(run).g(),
            rows@.len() == ids.len(),
            forall|j: int| #![trigger rows@[j]] 0 <= j < rows@.len() ==> ids[j] == rows@[j],
            run@ == answered_each(old(run).g(), old(run)@, ids, k as nat),
    {
        let r: usize = rows[k];
        assert(ids[k as int] == r);
        let n: usize = run.list_node_runs().len();
        if r < n {
            let answer = round_answer_text(&run.list_node_runs()[r]);
            assert(answer@ == round_answer(run@.rows[r as int]));
            run.complete_node(r, answer);
        }
    }
}

fn round_answer_text(row: &NodeRun) -> (s: String)
    ensures
        s@ == round_answer(row@),
{
    let round: u64 = match row.iteration {
        Some(k) => k,
        None => 0,
    };
    "out-".to_owned().concat(decimal_text(round).as_str())
}

fn find_running(run: &Run, node_id: &str) -> (r: Vec<usize>)
    ensures
        r@.len() == running_rows(run.g(), run@, node_id@, run@.rows.len()).len(),
        forall|k: int| #![trigger r@[k]]
            0 <= k < r@.len() ==> running_rows(run.g(), run@, node_id@, run@.rows.len())[k]
                == r@[k],
{
    let mut r: Vec<usize> = Vec::new();
    let node = run.node_index(node_id);
    let rows = run.list_node_runs();
    for i in 0..rows.len()
        invariant
            rows_view(rows@) == run@.rows,
            match node {
                Some(n) => named_from(run.g(), node_id@, 0) == Some(n as int),
                None => named_from(run.g(), node_id@, 0) is None,
            },
            r@.len() == running_rows(run.g(), run@, node_id@, i as nat).len(),
            forall|k: int| #![trigger r@[k]]
                0 <= k < r@.len() ==> running_rows(run.g(), run@, node_id@, i as nat)[k] == r@[k],
    {
        assert(run@.rows[i as int] == rows@[i as int]@);
        let at_node = match node {
            Some(n) => rows[i].node == n,
            None => false,
        };
        if at_node {
            if let Stage::Running = &rows[i].stage {
                r.push(i);
            }
        }
    }
    r
}

/// What a run needs next from whoever drives it.
#[derive(Clone, Copy, Debug, PartialEq, Eq, Structural)]
pub enum Action {
    /// The agent of the attempt is to be asked.
    Ask(usize),
    /// The attempt is to be woken at the given time, in milliseconds.
    WakeAt(usize, u64),
    /// Nothing: no attempt is open.
    Rest,
}

/// The first attempt from `i` on that is running.
pub open spec fn running_from(s: RunView, i: int) -> Option<int>
    decreases s.rows.len() - i,
{
    if i >= s.rows.len() {
        None
    } else if s.rows[i].stage is Running {
        Some(i)
    } else {
        running_from(s, i + 1)
    }
}

/// Of the first `n` attempts that wait, the one that is due first; of two at once, the older.
pub open spec fn next_due(s: RunView, n: nat) -> Option<(int, u64)>
    decreases n,
{
    if n == 0 {
        None
    } else {
        let front = next_due(s, (n - 1) as nat);
        match (s.rows[n - 1].stage, front) {
            (StageView::Waiting(at), None) => Some((n - 1, at)),
            (StageView::Waiting(at), Some((r, first))) => if at < first {
                Some((n - 1, at))
            } else {
                Some((r, first))
            },
            _ => front,
        }
    }
}

/// What a run needs next: the first running attempt is asked; where none runs, the waiting one
/// that is due first is woken.
pub fn next_action(run: &Run) -> (action: Action)
    ensures
        match running_from(run@, 0) {
            Some(r) => action matches Action::Ask(i) && i == r,
            None => match next_due(run@, run@.rows.len()) {
                Some((r, at)) => action matches Action::WakeAt(i, t) && i == r && t == at,
                None => action is Rest,
            },
        },
{
    let rows = run.list_node_runs();
    for i in 0..rows.len()
        invariant
            rows_view(rows@) == run@.rows,
            running_from(run@, 0) == running_from(run@, i as int),
    {
        assert(run@.rows[i as int] == rows@[i as int]@);
        if let Stage::Running = &rows[i].stage {
            return Action::Ask(i);
        }
    }
    let mut found: Option<(usize, u64)> = None;
    for i in 0..rows.len()
        invariant
            rows_view(rows@) == run@.rows,
            match found {
                Some((r, at)) => next_due(run@, i as nat) == Some((r as int, at)),
                None => next_due(run@, i as nat) is None,
            },
    {
        assert(run@.rows[i as int] == rows@[i as int]@);
        if let Stage::Waiting(at) = &rows[i].stage {
            let sooner = match found {
                Some((_, first)) => *at < first,
                None => true,
            };
            if sooner {
                found = Some((i, *at));
            }
        }
    }
    match found {
        Some((r, at)) => Action::WakeAt(r, at),
        None => Action::Rest,
    }
}

/// What is recorded with an attempt.
pub struct WorkerPayload {
    /// Which automatic retry it is, and how many there may be; `None` where it is none.
    pub auto_retry: Option<(u64, u64)>,
    /// What its prompt said about an earlier failure.
    pub injected_failure_context: Option<String>,
}

/// The attempt at `worker` that still counts, where there is one alone and it succeeded.
pub open spec fn worker_row(g: Graph, s: RunView) -> Option<int> {
    let rows = live_rows(g, s, "worker"@, s.rows.len());
    if rows.len() == 1 && s.rows[rows[0]].stage is Succeeded {
        Some(rows[0])
    } else {
        None
    }
}

/// What is recorded with the attempt at `worker`; `None` unless one attempt alone still counts,
/// and succeeded.
pub fn worker_payload(run: &Run) -> (r: Option<WorkerPayload>)
    requires
        run.wf(),
    ensures
        match worker_row(run.g(), run@) {
            Some(i) => r matches Some(p) && {
                let row = run@.rows[i];
                &&& p.auto_retry == (if row.retry > 0 {
                    Some((row.retry, policy(run.g(), row.node).max_retries))
                } else {
                    None
                })
                &&& text_view(p.injected_failure_context) == row.injected
            },
            None => r is None,
        },
{
    let live = run.rows_of("worker");
    if live.len() != 1 {
        return None;
    }
    let i: usize = live[0];
    let rows = run.list_node_runs();
    assert(run@.rows[i as int] == rows@[i as int]@);
    let succeeded = match &rows[i].stage {
        Stage::Succeeded(_) => true,
        _ => false,
    };
    if !succeeded {
        return None;
    }
    let max_retries: u64 = match &run.graph().nodes[rows[i].node].kind {
        NodeKind::Agent(config) => config.retry.max_retries,
        _ => 0,
    };
    let auto_retry = if rows[i].retry > 0 {
        Some((rows[i].retry, max_retries))
    } else {
        None
    };
    let injected_failure_context = match &rows[i].injected_failure_context {
        Some(s) => Some(s.clone()),
        None => None,
    };
    Some(WorkerPayload { auto_retry, injected_failure_context })
}

} // verus!
