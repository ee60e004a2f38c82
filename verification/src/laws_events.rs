//! What each event leaves a run as.

use crate::attempts::RowView;
use crate::attempts::StageView;
use crate::attempts::attempts_ran;
use crate::attempts::injected;
use crate::attempts::last_ended;
use crate::attempts::last_failed;
use crate::failure::FailureView;
use crate::failure::NodeFailureKind;
use crate::failure::failure_block;
use crate::graph::Graph;
use crate::graph::NodeKind;
use crate::json::Json;
use crate::json::Tree;
use crate::laws_text::law_a_variable_is_named_after_its_node;
use crate::model::Phase;
use crate::model::RunView;
use crate::model::advanced;
use crate::model::answered;
use crate::model::completed;
use crate::model::dispatch;
use crate::model::fail_run;
use crate::model::failed;
use crate::model::is_due;
use crate::model::is_running;
use crate::model::new_row;
use crate::model::pending;
use crate::model::reset;
use crate::model::resumed;
use crate::model::run_wf;
use crate::model::start_from;
use crate::model::started;
use crate::model::swept;
use crate::model::with_input;
use crate::template::rendered;
use crate::text::decimal;
use vstd::prelude::*;

verus! {

/// A variable's value; unset, it is null.
pub open spec fn value_in(pool: Map<Seq<char>, Tree>, name: Seq<char>) -> Tree {
    if pool.dom().contains(name) {
        pool[name]
    } else {
        Tree::Null
    }
}

/// A variable is unset in both pools, or has one value in both.
pub open spec fn same_at(
    a: Map<Seq<char>, Tree>,
    b: Map<Seq<char>, Tree>,
    name: Seq<char>,
) -> bool {
    a.dom().contains(name) == b.dom().contains(name) && (a.dom().contains(name) ==> a[name]
        == b[name])
}

/// The two attempts are alike but for how far they have come.
pub open spec fn alike(a: RowView, b: RowView) -> bool {
    &&& a.node == b.node
    &&& a.iteration == b.iteration
    &&& a.attempt == b.attempt
    &&& a.retry == b.retry
    &&& a.live == b.live
    &&& a.prompt == b.prompt
    &&& a.injected == b.injected
    &&& a.session == b.session
}

/// The two runs are alike but for their attempts.
pub open spec fn alike_around(s: RunView, t: RunView) -> bool {
    &&& s.status == t.status
    &&& s.failure == t.failure
    &&& s.phases == t.phases
    &&& s.rounds == t.rounds
    &&& s.pool == t.pool
}

/// An attempt at the node in the round that ran to its end.
pub open spec fn over_at(row: RowView, node: int, iteration: Option<nat>) -> bool {
    row.node == node && row.iteration == iteration && (row.stage is Succeeded
        || row.stage is Failed)
}

/// `q` is the latest attempt at the node in the round that ran to its end.
pub open spec fn latest_over(
    rows: Seq<RowView>,
    node: int,
    iteration: Option<nat>,
    q: int,
) -> bool {
    &&& 0 <= q < rows.len()
    &&& over_at(rows[q], node, iteration)
    &&& forall|p: int| #![trigger rows[p]]
        q < p < rows.len() ==> !over_at(rows[p], node, iteration)
}

/// What is said of the failure `f` of the given attempt.
pub open spec fn account(attempt: u64, f: FailureView) -> Seq<char> {
    "Previous attempt ("@ + decimal(attempt as nat) + ") failed: "@ + f.message + match f.output {
        Some(reply) => "\nIt answered:\n"@ + reply,
        None => Seq::empty(),
    }
}

// ---------------------------------------------------------------------------------------------
// Earlier attempts
// ---------------------------------------------------------------------------------------------

proof fn lemma_last_ended(rows: Seq<RowView>, node: int, iteration: Option<nat>)
    ensures
        match last_ended(rows, node, iteration) {
            Some(q) => latest_over(rows, node, iteration, q),
            None => forall|p: int| #![trigger rows[p]]
                0 <= p < rows.len() ==> !over_at(rows[p], node, iteration),
        },
    decreases rows.len(),
{
    if rows.len() > 0 && !(rows.last().at(node, iteration) && rows.last().stage.ended()) {
        let shorter = rows.drop_last();
        lemma_last_ended(shorter, node, iteration);
        assert forall|p: int| #![trigger rows[p]] 0 <= p < rows.len() implies p < shorter.len()
            && rows[p] == shorter[p] || !over_at(rows[p], node, iteration) by {}
    }
}

/// The failed attempt that a new one follows is the latest at the node in the round that ran to
/// its end, where that one failed. Attempts elsewhere, attempts that did not run to their end, and
/// whether an attempt still counts make no difference.
pub proof fn law_the_latest_end_decides(
    rows: Seq<RowView>,
    node: int,
    iteration: Option<nat>,
    q: int,
)
    ensures
        last_failed(rows, node, iteration) == Some(q) <==> latest_over(rows, node, iteration, q)
            && rows[q].stage is Failed,
{
    lemma_last_ended(rows, node, iteration);
    if latest_over(rows, node, iteration, q) {
        if let Some(p) = last_ended(rows, node, iteration) {
            if p < q {
                assert(!over_at(rows[q], node, iteration));
            } else if q < p {
                assert(!over_at(rows[p], node, iteration));
            }
        } else {
            assert(!over_at(rows[q], node, iteration));
        }
    }
}

/// As many attempts have run as there are attempts at the node in the round that are running, or
/// that ran to their end.
pub proof fn law_attempts_are_counted(rows: Seq<RowView>, node: int, iteration: Option<nat>)
    ensures
        attempts_ran(rows, node, iteration) == rows.filter(
            |row: RowView|
                row.node == node && row.iteration == iteration && (row.stage is Running
                    || row.stage is Succeeded || row.stage is Failed),
        ).len(),
    decreases rows.len(),
{
    reveal(Seq::filter);
    if rows.len() > 0 {
        law_attempts_are_counted(rows.drop_last(), node, iteration);
    }
}

/// A new attempt is the one after those that ran, has not been handed out, and counts.
pub proof fn law_a_new_attempt_is_the_next(
    rows: Seq<RowView>,
    node: int,
    iteration: Option<nat>,
    retry: u64,
    at: u64,
)
    ensures
        ({
            let row = new_row(rows, node, iteration, retry, at);
            let ran = attempts_ran(rows, node, iteration);
            &&& row.node == node
            &&& row.iteration == iteration
            &&& row.attempt == if ran < u64::MAX {
                ran + 1
            } else {
                u64::MAX as nat
            }
            &&& row.retry == retry
            &&& row.stage == StageView::Waiting(at)
            &&& row.live
            &&& row.prompt is None
            &&& row.injected is None
            &&& row.session is None
        }),
{
}

// ---------------------------------------------------------------------------------------------
// An attempt is handed out
// ---------------------------------------------------------------------------------------------

/// An attempt that is handed to its agent runs, in the session of its place, with its template
/// rendered. It is told about the attempt `q` that it follows, the latest at its node in its round
/// that ran to its end, where that one failed over its reply: by number, with the whole message,
/// and with the reply. After a success, or a failure of another kind, it is told nothing. Nothing
/// else changes.
pub proof fn law_an_attempt_is_told_what_it_follows(
    g: Graph,
    s: RunView,
    r: int,
    q: int,
    base: Seq<char>,
)
    requires
        run_wf(g, s),
        0 <= r < s.rows.len(),
        latest_over(s.rows, s.rows[r].node, s.rows[r].iteration, q),
        g.nodes@[s.rows[r].node].kind matches NodeKind::Agent(c) && rendered(c.prompt@, s.pool)
            == Ok::<Seq<char>, Seq<char>>(base),
    ensures
        ({
            let t = dispatch(g, s, r);
            let told = t.rows[r];
            let (prompt, block) = match s.rows[q].stage {
                StageView::Failed(f) => if f.kind is StructuredOutput {
                    (
                        base + "\n\n"@ + account(s.rows[q].attempt, f),
                        Some(account(s.rows[q].attempt, f)),
                    )
                } else {
                    (base, None)
                },
                _ => (base, None),
            };
            &&& told.prompt == Some(prompt)
            &&& told.injected == block
            &&& handed_out(s, t, r)
        }),
{
    law_the_latest_end_decides(s.rows, s.rows[r].node, s.rows[r].iteration, q);
    lemma_last_ended(s.rows, s.rows[r].node, s.rows[r].iteration);
    if let Some(p) = last_failed(s.rows, s.rows[r].node, s.rows[r].iteration) {
        law_the_latest_end_decides(s.rows, s.rows[r].node, s.rows[r].iteration, p);
        if p < q {
            assert(!over_at(s.rows[q], s.rows[r].node, s.rows[r].iteration));
        } else if q < p {
            assert(!over_at(s.rows[p], s.rows[r].node, s.rows[r].iteration));
        }
    }
    if let StageView::Failed(f) = s.rows[q].stage {
        assert(failure_block(s.rows[q].attempt, f) =~= account(s.rows[q].attempt, f));
    }
}

/// Attempt `r` runs, in the session of its place; but for its prompt and what it was told nothing
/// else has changed.
pub open spec fn handed_out(s: RunView, t: RunView, r: int) -> bool {
    &&& alike_around(s, t)
    &&& t.rows.len() == s.rows.len()
    &&& forall|k: int| #![trigger t.rows[k]]
        0 <= k < s.rows.len() && k != r ==> t.rows[k] == s.rows[k]
    &&& t.rows[r].stage is Running
    &&& t.rows[r].session == Some(r as nat)
    &&& t.rows[r].node == s.rows[r].node
    &&& t.rows[r].iteration == s.rows[r].iteration
    &&& t.rows[r].attempt == s.rows[r].attempt
    &&& t.rows[r].retry == s.rows[r].retry
    &&& t.rows[r].live == s.rows[r].live
}

/// Where no attempt at its node in its round ran to its end, an attempt that is handed to its
/// agent has its rendered template for a prompt, and is told nothing.
pub proof fn law_a_first_attempt_is_told_nothing(g: Graph, s: RunView, r: int, base: Seq<char>)
    requires
        run_wf(g, s),
        0 <= r < s.rows.len(),
        forall|p: int| #![trigger s.rows[p]]
            0 <= p < s.rows.len() ==> !over_at(s.rows[p], s.rows[r].node, s.rows[r].iteration),
        g.nodes@[s.rows[r].node].kind matches NodeKind::Agent(c) && rendered(c.prompt@, s.pool)
            == Ok::<Seq<char>, Seq<char>>(base),
    ensures
        dispatch(g, s, r).rows[r].prompt == Some(base),
        dispatch(g, s, r).rows[r].injected is None,
        handed_out(s, dispatch(g, s, r), r),
{
    lemma_last_ended(s.rows, s.rows[r].node, s.rows[r].iteration);
    if let Some(q) = last_ended(s.rows, s.rows[r].node, s.rows[r].iteration) {
        assert(!over_at(s.rows[q], s.rows[r].node, s.rows[r].iteration));
    }
}

/// Where its template asks for a variable that has no text, an attempt is over without having run,
/// and the run fails over that variable.
pub proof fn law_an_attempt_without_its_variables_fails_the_run(
    g: Graph,
    s: RunView,
    r: int,
    name: Seq<char>,
)
    requires
        run_wf(g, s),
        0 <= r < s.rows.len(),
        g.nodes@[s.rows[r].node].kind matches NodeKind::Agent(c) && rendered(c.prompt@, s.pool)
            == Err::<Seq<char>, Seq<char>>(name),
    ensures
        ({
            let t = dispatch(g, s, r);
            let f = FailureView { kind: NodeFailureKind::Variables, message: name, output: None };
            &&& t.status is Failed
            &&& t.failure == Some(f)
            &&& t.phases == s.phases
            &&& t.rounds == s.rounds
            &&& t.pool == s.pool
            &&& t.rows.len() == s.rows.len()
            &&& t.rows[r].stage == StageView::Abandoned(f)
            &&& alike(s.rows[r], t.rows[r])
            &&& forall|k: int| #![trigger t.rows[k]]
                0 <= k < s.rows.len() && k != r ==> cut_short(s.rows[k], t.rows[k])
        }),
{
}

// ---------------------------------------------------------------------------------------------
// Ends
// ---------------------------------------------------------------------------------------------

/// The attempt `b` is what a stop of the run leaves of `a`: one that waited is over without having
/// run, one that ran has failed, both for the interruption; one that was over is as it was.
pub open spec fn cut_short(a: RowView, b: RowView) -> bool {
    let why = FailureView {
        kind: NodeFailureKind::Interrupted,
        message: "the run stopped before the attempt was over"@,
        output: None,
    };
    &&& alike(a, b)
    &&& b.stage == match a.stage {
        StageView::Waiting(_) => StageView::Abandoned(why),
        StageView::Running => StageView::Failed(why),
        over => over,
    }
}

/// The run `t` is what the failure `f` leaves of `s`: a failed run, its attempts cut short, with
/// its nodes, its rounds and its variables as they were.
pub open spec fn stopped_over(s: RunView, t: RunView, f: FailureView) -> bool {
    &&& t.status is Failed
    &&& t.failure == Some(f)
    &&& t.phases == s.phases
    &&& t.rounds == s.rounds
    &&& t.pool == s.pool
    &&& t.rows.len() == s.rows.len()
    &&& forall|k: int| #![trigger t.rows[k]]
        0 <= k < s.rows.len() ==> cut_short(s.rows[k], t.rows[k])
}

/// A run that stops keeps its attempts, its nodes, its rounds and its variables.
pub proof fn law_a_stop_cuts_short(s: RunView, f: FailureView)
    ensures
        stopped_over(s, fail_run(s, f), f),
{
}

/// A restart stops a run that was running, for the interruption, and leaves another as it was.
pub proof fn law_a_restart_stops_a_running_run(s: RunView)
    ensures
        s.status is Running ==> stopped_over(
            s,
            swept(s),
            FailureView {
                kind: NodeFailureKind::Interrupted,
                message: "the run stopped before the attempt was over"@,
                output: None,
            },
        ),
        s.status !is Running ==> swept(s) == s,
{
}

/// A failure of the session or of the reply is retried whenever the node's policy has retries left:
/// the run goes on, the failed attempt no longer counts, and one further attempt at the node in the
/// round waits, with one more retry used, for as long as the policy says. Nothing else changes.
pub proof fn law_a_failure_is_retried_while_retries_are_left(
    g: Graph,
    s: RunView,
    r: int,
    f: FailureView,
    now: u64,
)
    requires
        run_wf(g, s),
        is_running(s, r),
        f.kind is Session || f.kind is StructuredOutput,
        g.nodes@[s.rows[r].node].kind matches NodeKind::Agent(c) && c.retry.enabled
            && s.rows[r].retry < c.retry.max_retries,
    ensures
        ({
            let t = failed(g, s, r, f, now);
            let n = s.rows.len() as int;
            let wait = g.nodes@[s.rows[r].node].kind->Agent_0.retry.initial_delay_seconds;
            let retry = t.rows[n];
            let ran = attempts_ran(t.rows.subrange(0, n), s.rows[r].node, s.rows[r].iteration);
            &&& t.status is Running
            &&& alike_around(s, t)
            &&& t.rows.len() == n + 1
            &&& forall|k: int| #![trigger t.rows[k]] 0 <= k < n && k != r ==> t.rows[k] == s.rows[k]
            &&& t.rows[r] == RowView {
                stage: StageView::Failed(f),
                live: false,
                ..s.rows[r]
            }
            &&& retry.node == s.rows[r].node
            &&& retry.iteration == s.rows[r].iteration
            &&& retry.retry == s.rows[r].retry + 1
            &&& retry.live
            &&& retry.prompt is None
            &&& retry.injected is None
            &&& retry.session is None
            &&& retry.stage matches StageView::Waiting(at) && at == if now + wait * 1000
                <= u64::MAX {
                now + wait * 1000
            } else {
                u64::MAX as int
            }
            &&& ran < u64::MAX ==> retry.attempt == ran + 1
        }),
{
    let t = failed(g, s, r, f, now);
    let n = s.rows.len() as int;
    let c = g.nodes@[s.rows[r].node].kind->Agent_0;
    assert(crate::model::policy(g, s.rows[r].node) == c.retry);
    assert(t.rows.subrange(0, n) =~= s.rows.update(
        r,
        RowView { stage: StageView::Failed(f), live: false, ..s.rows[r] },
    ));
}

/// A failure of another kind, or one without retries left, stops the run over it. The attempt that
/// failed still counts.
pub proof fn law_a_failure_without_retries_stops_the_run(
    g: Graph,
    s: RunView,
    r: int,
    f: FailureView,
    now: u64,
)
    requires
        run_wf(g, s),
        is_running(s, r),
        g.nodes@[s.rows[r].node].kind matches NodeKind::Agent(c) && !((f.kind is Session
            || f.kind is StructuredOutput) && c.retry.enabled && s.rows[r].retry
            < c.retry.max_retries),
    ensures
        ({
            let t = failed(g, s, r, f, now);
            &&& t.status is Failed
            &&& t.failure == Some(f)
            &&& t.phases == s.phases
            &&& t.rounds == s.rounds
            &&& t.pool == s.pool
            &&& t.rows.len() == s.rows.len()
            &&& t.rows[r].stage == StageView::Failed(f)
            &&& alike(s.rows[r], t.rows[r])
            &&& forall|k: int| #![trigger t.rows[k]]
                0 <= k < s.rows.len() && k != r ==> cut_short(s.rows[k], t.rows[k])
        }),
{
    let c = g.nodes@[s.rows[r].node].kind->Agent_0;
    assert(crate::model::policy(g, s.rows[r].node) == c.retry);
}

/// An attempt can end while it runs, and can be woken while it waits and once its time has come;
/// both in a running run alone.
pub proof fn law_when_attempts_can_go_on(s: RunView, r: int, now: u64)
    ensures
        is_running(s, r) <==> s.status is Running && 0 <= r < s.rows.len()
            && s.rows[r].stage is Running,
        is_due(s, r, now) <==> s.status is Running && 0 <= r < s.rows.len() && (
        s.rows[r].stage matches StageView::Waiting(at) && at <= now),
{
}

/// An answer ends its attempt as a success, puts the answer into the node's output variable, and
/// leaves the node done; from there the run goes on. Nothing else changes before it does.
pub proof fn law_an_answer_is_taken_in(
    g: Graph,
    s: RunView,
    r: int,
    output: Seq<char>,
    t: RunView,
)
    requires
        run_wf(g, s),
        is_running(s, r),
        t.status is Running,
        t.failure == s.failure,
        t.rounds == s.rounds,
        t.rows.len() == s.rows.len(),
        t.rows[r].stage == StageView::Succeeded(output),
        alike(s.rows[r], t.rows[r]),
        forall|k: int| #![trigger t.rows[k]]
            0 <= k < s.rows.len() && k != r ==> t.rows[k] == s.rows[k],
        t.phases.len() == s.phases.len(),
        t.phases[s.rows[r].node] is Done,
        forall|i: int| #![trigger t.phases[i]]
            0 <= i < s.phases.len() && i != s.rows[r].node ==> t.phases[i] == s.phases[i],
        t.pool == s.pool.insert(
            g.nodes@[s.rows[r].node].id@.push('.') + "output"@,
            Tree::Text(output),
        ),
    ensures
        completed(g, s, r, output) == advanced(g, t),
{
    let u = answered(g, s, r, output);
    law_a_variable_is_named_after_its_node(g.nodes@[s.rows[r].node].id@, "output"@);
    assert(u.rows =~= t.rows) by {
        assert forall|k: int| 0 <= k < s.rows.len() implies u.rows[k] == t.rows[k] by {}
    }
    assert(u.phases =~= t.phases);
    assert(u == t);
}

/// A run that begins runs, and goes on from there; nothing else changes before it does.
pub proof fn law_a_run_begins_as_it_is(g: Graph, s: RunView, t: RunView)
    requires
        run_wf(g, s),
        s.status is Pending,
        t.status is Running,
        t.failure == s.failure,
        t.rows == s.rows,
        t.phases == s.phases,
        t.rounds == s.rounds,
        t.pool == s.pool,
    ensures
        started(g, s) == advanced(g, t),
{
}

/// A resume begins what was at work again, and nothing else. A node at work, and each member of a
/// loop or an iteration at work, is idle again and its attempts no longer count; other nodes and
/// attempts are as they were. No variable is forgotten and no round: with all of them the run goes
/// on, as a running one without a failure.
pub proof fn law_a_resume_forgets_nothing(g: Graph, s: RunView, t: RunView)
    requires
        run_wf(g, s),
        s.status is Failed,
        t.status is Running,
        t.failure is None,
        t.pool == s.pool,
        t.rounds == s.rounds,
        t.phases.len() == s.phases.len(),
        forall|i: int| #![trigger t.phases[i]]
            0 <= i < s.phases.len() ==> t.phases[i] == if busy(g, s, i) {
                Phase::Idle
            } else {
                s.phases[i]
            },
        t.rows.len() == s.rows.len(),
        forall|k: int| #![trigger t.rows[k]]
            0 <= k < s.rows.len() ==> t.rows[k] == if busy(g, s, s.rows[k].node) {
                RowView { live: false, ..s.rows[k] }
            } else {
                s.rows[k]
            },
    ensures
        reset(g, s).pool == s.pool,
        resumed(g, s) == advanced(g, t),
{
    let u = reset(g, s);
    assert forall|i: int| 0 <= i < s.phases.len() implies busy(g, s, i)
        == #[trigger] crate::model::at_work(g, s, i) by {}
    assert(u.phases =~= t.phases);
    assert(u.rows =~= t.rows) by {
        assert forall|k: int| 0 <= k < s.rows.len() implies u.rows[k] == t.rows[k] by {
            assert(0 <= s.rows[k].node < g.size());
        }
    }
    assert(u == t);
}

/// The node is at work, or a member of one that is.
pub open spec fn busy(g: Graph, s: RunView, i: int) -> bool {
    s.phases[i] is Active || match g.nodes@[i].parent {
        Some(p) => s.phases[p as int] is Active,
        None => false,
    }
}

// ---------------------------------------------------------------------------------------------
// Before a run begins
// ---------------------------------------------------------------------------------------------

/// A new run has not begun: it has no attempts, no variables and no failure, and all its nodes are
/// idle.
pub proof fn law_a_new_run_has_done_nothing(g: Graph)
    requires
        g.wf(),
    ensures
        pending(g).status is Pending,
        pending(g).failure is None,
        pending(g).rows.len() == 0,
        pending(g).phases.len() == g.nodes@.len(),
        forall|i: int| #![trigger pending(g).phases[i]]
            0 <= i < g.nodes@.len() ==> pending(g).phases[i] is Idle,
        forall|name: Seq<char>| !(#[trigger] pending(g).pool.dom().contains(name)),
{
}

/// The input goes to the first start node outside of loops and iterations.
pub proof fn law_the_first_start_node_takes_the_input(g: Graph, i: int)
    ensures
        start_from(g, 0) == Some(i) <==> 0 <= i < g.nodes@.len() && g.nodes@[i].kind is Start
            && g.nodes@[i].parent is None && forall|k: int| #![trigger g.nodes@[k]]
            0 <= k < i ==> !(g.nodes@[k].kind is Start && g.nodes@[k].parent is None),
{
    lemma_start_from(g, 0);
    if 0 <= i < g.nodes@.len() && g.nodes@[i].kind is Start && g.nodes@[i].parent is None {
        if let Some(k) = start_from(g, 0) {
            assert(g.nodes@[k] == g.node(k));
        }
    }
}

proof fn lemma_start_from(g: Graph, i: int)
    requires
        0 <= i,
    ensures
        match start_from(g, i) {
            Some(k) => i <= k < g.nodes@.len() && g.nodes@[k].kind is Start
                && g.nodes@[k].parent is None && forall|j: int| #![trigger g.nodes@[j]]
                i <= j < k ==> !(g.nodes@[j].kind is Start && g.nodes@[j].parent is None),
            None => forall|j: int| #![trigger g.nodes@[j]]
                i <= j < g.nodes@.len() ==> !(g.nodes@[j].kind is Start
                    && g.nodes@[j].parent is None),
        },
    decreases g.size() - i,
{
    if i < g.size() && !(g.node(i).kind is Start && g.node(i).parent is None) {
        lemma_start_from(g, i + 1);
    }
}

/// Each input is the value of the variable of its name of the start node, the later of two with one
/// name; other variables are as they were.
pub proof fn law_each_input_is_a_variable(
    pool: Map<Seq<char>, Tree>,
    id: Seq<char>,
    input: Seq<(String, Json)>,
)
    ensures
        forall|k: int| #![trigger input[k]]
            0 <= k < input.len() && (forall|j: int| #![trigger input[j]]
                k < j < input.len() ==> input[j].0@ != input[k].0@) ==> {
                let set = with_input(pool, id, input, input.len());
                let name = id.push('.') + input[k].0@;
                set.dom().contains(name) && set[name] == input[k].1@
            },
        forall|name: Seq<char>|
            (forall|k: int| #![trigger input[k]]
                0 <= k < input.len() ==> name != id.push('.') + input[k].0@) ==> #[trigger] same_at(
                pool,
                with_input(pool, id, input, input.len()),
                name,
            ),
{
    lemma_with_input(pool, id, input, input.len());
}

proof fn lemma_with_input(
    pool: Map<Seq<char>, Tree>,
    id: Seq<char>,
    input: Seq<(String, Json)>,
    n: nat,
)
    requires
        n <= input.len(),
    ensures
        forall|k: int| #![trigger input[k]]
            0 <= k < n && (forall|j: int| #![trigger input[j]]
                k < j < n ==> input[j].0@ != input[k].0@) ==> {
                let set = with_input(pool, id, input, n);
                let name = id.push('.') + input[k].0@;
                set.dom().contains(name) && set[name] == input[k].1@
            },
        forall|name: Seq<char>|
            (forall|k: int| #![trigger input[k]]
                0 <= k < n ==> name != id.push('.') + input[k].0@) ==> #[trigger] same_at(
                pool,
                with_input(pool, id, input, n),
                name,
            ),
    decreases n,
{
    if n > 0 {
        let m = (n - 1) as nat;
        lemma_with_input(pool, id, input, m);
        law_a_variable_is_named_after_its_node(id, input[n - 1].0@);
        let before = with_input(pool, id, input, m);
        let set = with_input(pool, id, input, n);
        let last = id.push('.') + input[n - 1].0@;
        assert(set == before.insert(last, input[n - 1].1@));
        assert forall|k: int| #![trigger input[k]]
            0 <= k < n && (forall|j: int| #![trigger input[j]]
                k < j < n ==> input[j].0@ != input[k].0@) implies {
            let name = id.push('.') + input[k].0@;
            set.dom().contains(name) && set[name] == input[k].1@
        } by {
            if k < m {
                let name = id.push('.') + input[k].0@;
                assert(input[n - 1].0@ != input[k].0@);
                assert(name.subrange(id.len() as int + 1, name.len() as int) =~= input[k].0@);
                assert(last.subrange(id.len() as int + 1, last.len() as int) =~= input[n - 1].0@);
                assert(name != last);
            }
        }
        assert forall|name: Seq<char>|
            (forall|k: int| #![trigger input[k]]
                0 <= k < n ==> name != id.push('.') + input[k].0@) implies #[trigger] same_at(
            pool,
            set,
            name,
        ) by {
            assert(name != last);
            assert(same_at(pool, before, name));
        }
    }
}

} // verus!
