//! What the parts of the engine promise together.

use crate::attempts::RowView;
use crate::attempts::StageView;
use crate::attempts::injected;
use crate::attempts::last_ended;
use crate::attempts::last_failed;
use crate::failure::FailureView;
use crate::failure::NodeFailureKind;
use crate::failure::failure_block;
use crate::graph::Graph;
use crate::graph::NodeKind;
use crate::graph::default_retry;
use crate::json::Tree;
use crate::kept::kept;
use crate::kept::open_row_kept;
use crate::kept::round_bound;
use crate::kept::row_kept;
use crate::model::RunView;
use crate::model::WorkflowRunStatus;
use crate::model::advanced;
use crate::model::all_done;
use crate::model::answered;
use crate::model::begin;
use crate::model::completed;
use crate::model::dispatch;
use crate::model::due;
use crate::model::failed;
use crate::model::inner_left;
use crate::model::is_due;
use crate::model::is_running;
use crate::model::lemma_events;
use crate::model::lemma_ready_from;
use crate::model::lemma_step;
use crate::model::outer_left;
use crate::model::policy;
use crate::model::ready_from;
use crate::model::reset;
use crate::model::resumed;
use crate::model::retries;
use crate::model::round_over;
use crate::model::rounds_left;
use crate::model::run_wf;
use crate::model::settle;
use crate::model::started;
use crate::model::step;
use crate::model::swept;
use crate::pool::value_or_null;
use crate::pool::variable;
use crate::template::opens_at;
use crate::template::rendered;
use crate::template::rendered_from;
use crate::template::resolve;
use crate::text::decimal;
use vstd::prelude::*;

verus! {

// ---------------------------------------------------------------------------------------------
// What a new attempt is told
// ---------------------------------------------------------------------------------------------

/// `b` has the attempts of `a`, and further ones; no attempt came to its end in between.
pub open spec fn same_ends(a: Seq<RowView>, b: Seq<RowView>) -> bool {
    &&& a.len() <= b.len()
    &&& forall|q: int| #![trigger a[q]] #![trigger b[q]]
        0 <= q < a.len() ==> {
            &&& a[q].node == b[q].node
            &&& a[q].iteration == b[q].iteration
            &&& a[q].attempt == b[q].attempt
            &&& a[q].stage == b[q].stage || !a[q].stage.ended() && !b[q].stage.ended()
        }
    &&& forall|q: int| #![trigger b[q]] a.len() <= q < b.len() ==> !b[q].stage.ended()
}

/// `b` has the attempts of `a`, and further ones; at the node in the round no attempt came to its
/// end in between.
pub open spec fn same_verdict(
    a: Seq<RowView>,
    b: Seq<RowView>,
    node: int,
    iteration: Option<nat>,
) -> bool {
    &&& a.len() <= b.len()
    &&& forall|q: int| #![trigger a[q]] #![trigger b[q]]
        0 <= q < a.len() ==> {
            &&& a[q].node == b[q].node
            &&& a[q].iteration == b[q].iteration
            &&& a[q].at(node, iteration) ==> {
                &&& a[q].attempt == b[q].attempt
                &&& a[q].stage == b[q].stage || !a[q].stage.ended() && !b[q].stage.ended()
            }
        }
    &&& forall|q: int| #![trigger b[q]]
        a.len() <= q < b.len() ==> !(b[q].at(node, iteration) && b[q].stage.ended())
}

proof fn lemma_same_verdict(a: Seq<RowView>, b: Seq<RowView>, node: int, iteration: Option<nat>)
    requires
        same_verdict(a, b, node, iteration),
    ensures
        last_ended(a, node, iteration) == last_ended(b, node, iteration),
        last_ended(a, node, iteration) matches Some(i) ==> 0 <= i < a.len() && a[i].at(
            node,
            iteration,
        ) && a[i].stage.ended(),
        last_failed(a, node, iteration) == last_failed(b, node, iteration),
        injected(a, node, iteration) == injected(b, node, iteration),
    decreases b.len(),
{
    if b.len() > a.len() {
        let shorter = b.drop_last();
        assert(same_verdict(a, shorter, node, iteration)) by {
            assert forall|q: int| #![trigger shorter[q]] 0 <= q < shorter.len() implies shorter[q]
                == b[q] by {}
        }
        lemma_same_verdict(a, shorter, node, iteration);
        assert(!(b[b.len() - 1].at(node, iteration) && b[b.len() - 1].stage.ended()));
    } else if a.len() > 0 {
        let c = a.drop_last();
        let d = b.drop_last();
        assert(same_verdict(c, d, node, iteration)) by {
            assert forall|q: int| #![trigger c[q]] #![trigger d[q]]
                0 <= q < c.len() implies c[q] == a[q] && d[q] == b[q] by {}
        }
        lemma_same_verdict(c, d, node, iteration);
        assert(a[a.len() - 1].node == b[a.len() - 1].node);
    }
    if let Some(i) = last_ended(a, node, iteration) {
        assert(a[i].node == b[i].node);
    }
}

/// Each attempt of `b` beyond those of `a` that has a prompt was told what `a` has to tell.
pub open spec fn fresh_told(a: Seq<RowView>, b: Seq<RowView>) -> bool {
    &&& a.len() <= b.len()
    &&& forall|r: int| #![trigger b[r]]
        a.len() <= r < b.len() && b[r].prompt is Some ==> b[r].injected == injected(
            a,
            b[r].node,
            b[r].iteration,
        )
}

proof fn lemma_begin_told(g: Graph, a: Seq<RowView>, s: RunView, i: int)
    requires
        run_wf(g, s),
        s.status is Running,
        0 <= i < g.size(),
        same_ends(a, s.rows),
        fresh_told(a, s.rows),
    ensures
        fresh_told(a, begin(g, s, i).rows),
        begin(g, s, i).status !is Failed ==> same_ends(a, begin(g, s, i).rows),
{
    let t = begin(g, s, i);
    match g.node(i).kind {
        NodeKind::Agent(_) => {
            let r = s.rows.len() as int;
            let iteration = crate::model::current_iteration(g, s, i);
            let pushed = s.rows.push(crate::model::new_row(s.rows, i, iteration, 0, 0));
            assert(same_ends(a, pushed)) by {
                assert forall|q: int| #![trigger pushed[q]] 0 <= q < s.rows.len() implies pushed[q]
                    == s.rows[q] by {}
            }
            lemma_same_verdict(a, pushed, i, iteration);
            assert forall|q: int| #![trigger t.rows[q]] 0 <= q < t.rows.len() implies {
                &&& t.rows[q].node == pushed[q].node
                &&& t.rows[q].iteration == pushed[q].iteration
                &&& t.rows[q].attempt == pushed[q].attempt
                &&& q < r ==> t.rows[q].prompt == pushed[q].prompt && t.rows[q].injected
                    == pushed[q].injected
            } by {}
            if t.status !is Failed {
                assert forall|q: int| #![trigger t.rows[q]] 0 <= q < s.rows.len() implies t.rows[q]
                    == s.rows[q] by {}
            }
        },
        NodeKind::Iteration(_) => {
            assert forall|q: int| #![trigger t.rows[q]] 0 <= q < t.rows.len() implies {
                &&& t.rows[q].node == s.rows[q].node
                &&& t.rows[q].iteration == s.rows[q].iteration
                &&& t.rows[q].prompt == s.rows[q].prompt
                &&& t.rows[q].injected == s.rows[q].injected
            } by {}
        },
        _ => {},
    }
}

proof fn lemma_advanced_told(g: Graph, a: Seq<RowView>, s: RunView)
    requires
        run_wf(g, s),
        same_ends(a, s.rows),
        fresh_told(a, s.rows),
    ensures
        fresh_told(a, advanced(g, s).rows),
        advanced(g, s).status !is Failed ==> same_ends(a, advanced(g, s).rows),
    decreases outer_left(g, s), rounds_left(g, s), inner_left(g, s),
{
    lemma_step(g, s);
    if let Some(t) = step(g, s) {
        lemma_ready_from(g, s, 0);
        if let Some(i) = ready_from(g, s, 0) {
            lemma_begin_told(g, a, s, i);
        }
        if t.status is Running {
            lemma_advanced_told(g, a, t);
        } else {
            assert(step(g, t) is None);
            assert(advanced(g, t) == t);
        }
    }
}

/// A failure that a later attempt made good stays made good, and one that none did stays open,
/// when a resume clears attempts: which failed attempt a new one follows is what it was before the
/// resume, and each attempt that the resume begins is told accordingly.
pub proof fn law_resume_changes_no_verdict(
    g: Graph,
    s: RunView,
    node: int,
    iteration: Option<nat>,
)
    requires
        run_wf(g, s),
        kept(g, s),
        s.status is Failed,
    ensures
        resumed(g, s).status !is Failed ==> last_failed(resumed(g, s).rows, node, iteration)
            == last_failed(s.rows, node, iteration),
        forall|r: int| #![trigger resumed(g, s).rows[r]]
            s.rows.len() <= r < resumed(g, s).rows.len() && resumed(g, s).rows[r].prompt is Some
                ==> resumed(g, s).rows[r].injected == injected(
                s.rows,
                resumed(g, s).rows[r].node,
                resumed(g, s).rows[r].iteration,
            ),
{
    let t = reset(g, s);
    lemma_events(g, s);
    assert(same_ends(s.rows, t.rows));
    assert(fresh_told(s.rows, t.rows));
    lemma_advanced_told(g, s.rows, t);
    if resumed(g, s).status !is Failed {
        lemma_same_verdict(s.rows, resumed(g, s).rows, node, iteration);
    }
}

/// A restart fails the attempts that wait, which never ran. Where no attempt at the node in the
/// round was running, a new attempt still follows the failed attempt that it would have followed
/// before the restart.
pub proof fn law_restart_keeps_the_real_failure(
    g: Graph,
    s: RunView,
    node: int,
    iteration: Option<nat>,
)
    requires
        run_wf(g, s),
        kept(g, s),
        s.status is Running,
        forall|r: int| #![trigger s.rows[r]]
            0 <= r < s.rows.len() && s.rows[r].at(node, iteration) ==> s.rows[r].stage !is Running,
    ensures
        last_failed(swept(s).rows, node, iteration) == last_failed(s.rows, node, iteration),
        injected(swept(s).rows, node, iteration) == injected(s.rows, node, iteration),
        forall|r: int| #![trigger resumed(g, swept(s)).rows[r]]
            s.rows.len() <= r < resumed(g, swept(s)).rows.len() && resumed(g, swept(s)).rows[r].at(
                node,
                iteration,
            ) && resumed(g, swept(s)).rows[r].prompt is Some ==> resumed(
                g,
                swept(s),
            ).rows[r].injected == injected(s.rows, node, iteration),
{
    lemma_same_verdict(s.rows, swept(s).rows, node, iteration);
    lemma_events(g, s);
    crate::kept::lemma_swept_kept(g, s);
    law_resume_changes_no_verdict(g, swept(s), node, iteration);
}

/// What an attempt that is handed to its agent is told. After a failure of the reply, the block
/// of that failure stands behind the rendered prompt, once. After a failure of another kind,
/// after a success, and the first time, the rendered prompt stands alone.
pub proof fn law_what_an_attempt_is_told(g: Graph, s: RunView, r: int)
    requires
        run_wf(g, s),
        0 <= r < s.rows.len(),
        rendered(g.node(s.rows[r].node).kind->Agent_0.prompt@, s.pool) is Ok,
    ensures
        ({
            let row = s.rows[r];
            let base = rendered(g.node(row.node).kind->Agent_0.prompt@, s.pool)->Ok_0;
            let told = dispatch(g, s, r).rows[r];
            match last_failed(s.rows, row.node, row.iteration) {
                Some(i) => {
                    let f = s.rows[i].stage->Failed_0;
                    if f.kind is StructuredOutput {
                        &&& told.prompt == Some(
                            base + "\n\n"@ + failure_block(s.rows[i].attempt, f),
                        )
                        &&& told.injected == Some(failure_block(s.rows[i].attempt, f))
                    } else {
                        told.prompt == Some(base) && told.injected is None
                    }
                },
                None => told.prompt == Some(base) && told.injected is None,
            }
        }),
{
}

proof fn lemma_latest(rows: Seq<RowView>, r: int, node: int, iteration: Option<nat>)
    requires
        0 <= r < rows.len(),
        rows[r].at(node, iteration),
        rows[r].stage.ended(),
        forall|q: int| #![trigger rows[q]]
            r < q < rows.len() ==> !(rows[q].at(node, iteration) && rows[q].stage.ended()),
    ensures
        last_ended(rows, node, iteration) == Some(r),
    decreases rows.len(),
{
    if r < rows.len() - 1 {
        let shorter = rows.drop_last();
        assert forall|q: int| #![trigger shorter[q]] 0 <= q < shorter.len() implies shorter[q]
            == rows[q] by {}
        lemma_latest(shorter, r, node, iteration);
        assert(!(rows[rows.len() - 1].at(node, iteration) && rows[rows.len() - 1].stage.ended()));
    }
}

proof fn lemma_advanced_counts(g: Graph, s: RunView)
    requires
        run_wf(g, s),
    ensures
        s.rows.len() <= advanced(g, s).rows.len(),
        forall|q: int| #![trigger advanced(g, s).rows[q]]
            0 <= q < advanced(g, s).rows.len() ==> advanced(g, s).rows[q].live == (q
                < s.rows.len() ==> s.rows[q].live),
    decreases outer_left(g, s), rounds_left(g, s), inner_left(g, s),
{
    lemma_step(g, s);
    if let Some(t) = step(g, s) {
        assert forall|q: int| #![trigger t.rows[q]] 0 <= q < t.rows.len() implies t.rows[q].live
            == (q < s.rows.len() ==> s.rows[q].live) by {}
        lemma_advanced_counts(g, t);
    }
}

/// An answer makes the failures before it good: a later attempt at the node in the round follows
/// none of them, whatever the answer sets going.
pub proof fn law_an_answer_makes_good(g: Graph, s: RunView, r: int, output: Seq<char>)
    requires
        run_wf(g, s),
        kept(g, s),
        is_running(s, r),
    ensures
        last_failed(answered(g, s, r, output).rows, s.rows[r].node, s.rows[r].iteration) is None,
        last_failed(completed(g, s, r, output).rows, s.rows[r].node, s.rows[r].iteration) is None,
{
    let node = s.rows[r].node;
    let iteration = s.rows[r].iteration;
    let t = answered(g, s, r, output);
    let u = completed(g, s, r, output);
    lemma_events(g, s);
    assert(run_wf(g, t));
    assert forall|q: int| #![trigger t.rows[q]] r < q < t.rows.len() implies !t.rows[q].at(
        node,
        iteration,
    ) by {
        assert(!s.rows[q].at(node, iteration));
    }
    lemma_latest(t.rows, r, node, iteration);
    crate::kept::lemma_answered_kept(g, s, r, output);
    crate::kept::lemma_advanced_kept(g, t);
    lemma_advanced_remembers(g, t);
    lemma_advanced_counts(g, t);
    assert(row_kept(g, s.rows[r], r));
    assert(t.rows[r].live);
    assert(u.rows[r].at(node, iteration) && u.rows[r].live && u.rows[r].stage is Succeeded);
    assert forall|q: int| #![trigger u.rows[q]] r < q < u.rows.len() implies !u.rows[q].at(
        node,
        iteration,
    ) by {
        if q < t.rows.len() {
            assert(!t.rows[q].at(node, iteration));
        } else {
            assert(u.rows[q].live);
        }
    }
    lemma_latest(u.rows, r, node, iteration);
}

/// The attempt that failed last is the one that a later attempt follows.
pub proof fn law_the_last_failure_is_followed(
    g: Graph,
    s: RunView,
    r: int,
    f: FailureView,
    now: u64,
)
    requires
        run_wf(g, s),
        kept(g, s),
        is_running(s, r),
    ensures
        last_failed(failed(g, s, r, f, now).rows, s.rows[r].node, s.rows[r].iteration) == Some(r),
        failed(g, s, r, f, now).rows[r].stage == StageView::Failed(f),
        failed(g, s, r, f, now).rows[r].attempt == s.rows[r].attempt,
{
    let t = failed(g, s, r, f, now);
    assert forall|q: int| #![trigger t.rows[q]] r < q < t.rows.len() implies !(t.rows[q].at(
        s.rows[r].node,
        s.rows[r].iteration,
    ) && t.rows[q].stage.ended()) by {
        if q < s.rows.len() {
            assert(!s.rows[q].at(s.rows[r].node, s.rows[r].iteration));
        }
    }
    lemma_latest(t.rows, r, s.rows[r].node, s.rows[r].iteration);
}

/// A failure elsewhere changes nothing here: where the attempt that failed was not at the node in
/// the round, and none at it is running, a later attempt there follows the failed attempt that it
/// would have followed before.
pub proof fn law_a_failure_elsewhere_changes_no_verdict(
    g: Graph,
    s: RunView,
    r: int,
    f: FailureView,
    now: u64,
    node: int,
    iteration: Option<nat>,
)
    requires
        run_wf(g, s),
        kept(g, s),
        is_running(s, r),
        !s.rows[r].at(node, iteration),
        forall|q: int| #![trigger s.rows[q]]
            0 <= q < s.rows.len() && s.rows[q].at(node, iteration) ==> s.rows[q].stage !is Running,
    ensures
        last_failed(failed(g, s, r, f, now).rows, node, iteration) == last_failed(
            s.rows,
            node,
            iteration,
        ),
        injected(failed(g, s, r, f, now).rows, node, iteration) == injected(
            s.rows,
            node,
            iteration,
        ),
{
    lemma_same_verdict(s.rows, failed(g, s, r, f, now).rows, node, iteration);
}

// ---------------------------------------------------------------------------------------------
// History
// ---------------------------------------------------------------------------------------------

/// `b` has the attempts of `a`, and further ones. An attempt that is over is as it was, but for
/// whether it counts; one that has a prompt keeps it, what it was told and its session.
pub open spec fn remembers(a: Seq<RowView>, b: Seq<RowView>) -> bool {
    &&& a.len() <= b.len()
    &&& forall|q: int| #![trigger a[q]] #![trigger b[q]]
        0 <= q < a.len() ==> {
            &&& a[q].node == b[q].node
            &&& a[q].iteration == b[q].iteration
            &&& a[q].attempt == b[q].attempt
            &&& a[q].retry == b[q].retry
            &&& !a[q].stage.open() ==> b[q] == (RowView { live: b[q].live, ..a[q] })
            &&& a[q].stage is Running ==> b[q].prompt == a[q].prompt && b[q].injected
                == a[q].injected && b[q].session == a[q].session && b[q].stage.ran()
        }
}

proof fn lemma_remembers_on(a: Seq<RowView>, b: Seq<RowView>, c: Seq<RowView>)
    requires
        remembers(a, b),
        remembers(b, c),
    ensures
        remembers(a, c),
{
    assert forall|q: int| #![trigger a[q]] #![trigger c[q]] 0 <= q < a.len() implies {
        &&& a[q].node == c[q].node
        &&& a[q].iteration == c[q].iteration
        &&& a[q].attempt == c[q].attempt
        &&& a[q].retry == c[q].retry
        &&& !a[q].stage.open() ==> c[q] == (RowView { live: c[q].live, ..a[q] })
        &&& a[q].stage is Running ==> c[q].prompt == a[q].prompt && c[q].injected == a[q].injected
            && c[q].session == a[q].session && c[q].stage.ran()
    } by {
        assert(a[q].node == b[q].node);
        assert(b[q].node == c[q].node);
    }
}

proof fn lemma_advanced_remembers(g: Graph, s: RunView)
    requires
        run_wf(g, s),
    ensures
        remembers(s.rows, advanced(g, s).rows),
    decreases outer_left(g, s), rounds_left(g, s), inner_left(g, s),
{
    lemma_step(g, s);
    if let Some(t) = step(g, s) {
        assert(remembers(s.rows, t.rows));
        lemma_advanced_remembers(g, t);
        lemma_remembers_on(s.rows, t.rows, advanced(g, t).rows);
    }
}

/// No event takes an attempt away or rewrites one that is over: a failed attempt stays readable,
/// with its failure, its prompt and its session, whatever comes after it.
pub proof fn law_attempts_stay_readable(g: Graph, s: RunView)
    requires
        run_wf(g, s),
    ensures
        s.status is Pending ==> remembers(s.rows, started(g, s).rows),
        forall|r: int, f: FailureView, now: u64|
            is_running(s, r) ==> remembers(s.rows, #[trigger] failed(g, s, r, f, now).rows),
        forall|r: int, output: Seq<char>|
            is_running(s, r) ==> remembers(s.rows, #[trigger] completed(g, s, r, output).rows),
        forall|r: int, now: u64|
            #[trigger] is_due(s, r, now) ==> remembers(s.rows, dispatch(g, s, r).rows),
        remembers(s.rows, swept(s).rows),
        s.status is Failed ==> remembers(s.rows, resumed(g, s).rows),
{
    lemma_events(g, s);
    if s.status is Pending {
        lemma_advanced_remembers(g, RunView { status: WorkflowRunStatus::Running, ..s });
    }
    if s.status is Failed {
        lemma_advanced_remembers(g, reset(g, s));
        assert(remembers(s.rows, reset(g, s).rows));
        lemma_remembers_on(s.rows, reset(g, s).rows, resumed(g, s).rows);
    }
    assert forall|r: int, output: Seq<char>| is_running(s, r) implies remembers(
        s.rows,
        #[trigger] completed(g, s, r, output).rows,
    ) by {
        let t = answered(g, s, r, output);
        assert(run_wf(g, t));
        assert(remembers(s.rows, t.rows));
        lemma_advanced_remembers(g, t);
        lemma_remembers_on(s.rows, t.rows, completed(g, s, r, output).rows);
    }
}

/// Two attempts never share a session: a retry runs in a fresh one.
pub proof fn law_each_attempt_has_its_own_session(g: Graph, s: RunView, q: int, r: int)
    requires
        run_wf(g, s),
        kept(g, s),
        0 <= q < r < s.rows.len(),
        s.rows[q].stage.ran(),
        s.rows[r].stage.ran(),
    ensures
        s.rows[q].session is Some,
        s.rows[r].session is Some,
        s.rows[q].session != s.rows[r].session,
{
    assert(row_kept(g, s.rows[q], q));
    assert(row_kept(g, s.rows[r], r));
}

/// Of the attempts at one node in one round at most one counts.
pub proof fn law_one_attempt_counts(g: Graph, s: RunView, q: int, r: int)
    requires
        run_wf(g, s),
        kept(g, s),
        0 <= q < s.rows.len(),
        0 <= r < s.rows.len(),
        s.rows[q].live,
        s.rows[r].live,
        s.rows[q].at(s.rows[r].node, s.rows[r].iteration),
    ensures
        q == r,
{
    if q < r {
        assert(s.rows[q].iteration != s.rows[r].iteration);
    } else if r < q {
        assert(s.rows[r].iteration != s.rows[q].iteration);
    }
}

/// No attempt is a further retry than its node's policy allows; without retries there is none.
pub proof fn law_retries_are_bounded(g: Graph, s: RunView, r: int)
    requires
        run_wf(g, s),
        kept(g, s),
        0 <= r < s.rows.len(),
    ensures
        s.rows[r].retry <= policy(g, s.rows[r].node).max_retries,
        !policy(g, s.rows[r].node).enabled ==> s.rows[r].retry == 0,
{
    assert(row_kept(g, s.rows[r], r));
}

/// By default a failure that can be retried is retried, after more than four seconds and at most
/// ten, unless the clock ends before.
pub proof fn law_the_default_is_to_retry(kind: NodeFailureKind, now: u64)
    requires
        kind.retryable(),
        now + 10_000 <= u64::MAX,
    ensures
        retries(default_retry(), 0, kind),
        now + 4_000 < due(default_retry(), now) <= now + 10_000,
{
}

// ---------------------------------------------------------------------------------------------
// Rounds
// ---------------------------------------------------------------------------------------------

/// While an attempt at a member of an iteration is open, the iteration's item and index are those
/// of the attempt's round: whenever it is dispatched, its prompt is rendered with them.
pub proof fn law_members_see_their_round(g: Graph, s: RunView, r: int)
    requires
        run_wf(g, s),
        kept(g, s),
        0 <= r < s.rows.len(),
        s.rows[r].stage.open(),
        g.node(s.rows[r].node).parent is Some,
        g.node(g.node(s.rows[r].node).parent->0 as int).kind is Iteration,
    ensures
        ({
            let p = g.node(s.rows[r].node).parent->0 as int;
            let id = g.node(p).id@;
            let round = s.rounds[p].round;
            &&& s.rows[r].iteration == Some(round)
            &&& round < s.rounds[p].items.len()
            &&& value_or_null(s.pool, variable(id, "item"@)) == s.rounds[p].items[round as int]
            &&& resolve(s.pool, variable(id, "index"@)) == Some(decimal(round))
        }),
{
    assert(open_row_kept(g, s, r));
    let n = s.rows[r].node;
    assert(0 <= n < g.size());
    let p = g.nodes@[n].parent->0 as int;
    assert(0 <= p < g.size());
    assert(s.rounds[p].round < crate::model::total_rounds(g, s, p));
    assert(round_bound(g, s, p));
}

/// An iteration whose last round is settled hands over one value for each of its items, in order,
/// the last from the round that was settled.
pub proof fn law_an_iteration_collects_from_each_round(g: Graph, s: RunView, i: int)
    requires
        run_wf(g, s),
        kept(g, s),
        s.status is Running,
        0 <= i < g.size(),
        g.node(i).kind is Iteration,
        round_over(g, s, i),
        settle(g, s, i).phases[i] is Done,
    ensures
        ({
            let output = value_or_null(
                settle(g, s, i).pool,
                variable(g.node(i).id@, "output"@),
            );
            &&& output == Tree::Array(
                s.rounds[i].collected.push(
                    value_or_null(s.pool, g.node(i).kind->Iteration_0.collect@),
                ),
            )
            &&& output->Array_0.len() == s.rounds[i].items.len()
        }),
{
    assert(s.rounds[i].round < crate::model::total_rounds(g, s, i));
    assert(round_bound(g, s, i));
}

/// A loop never goes into more rounds than its document allows.
pub proof fn law_a_loop_is_bounded(g: Graph, s: RunView, i: int)
    requires
        run_wf(g, s),
        s.status is Running,
        0 <= i < g.size(),
        g.node(i).kind is Loop,
        s.phases[i] is Active,
    ensures
        s.rounds[i].round < g.node(i).kind->Loop_0.max_iterations,
{
    assert(s.rounds[i].round < crate::model::total_rounds(g, s, i));
}

// ---------------------------------------------------------------------------------------------
// Rest, and templates
// ---------------------------------------------------------------------------------------------

/// A run at rest has nothing left to begin or to settle, and if all is done it has succeeded.
pub proof fn law_rest(g: Graph, s: RunView)
    requires
        run_wf(g, s),
    ensures
        step(g, advanced(g, s)) is None,
        advanced(g, s).status is Running ==> !all_done(g, advanced(g, s)),
        kept(g, s) && advanced(g, s).status is Succeeded ==> all_done(g, advanced(g, s)),
    decreases outer_left(g, s), rounds_left(g, s), inner_left(g, s),
{
    lemma_step(g, s);
    if let Some(t) = step(g, s) {
        law_rest(g, t);
    }
    if kept(g, s) {
        crate::kept::lemma_advanced_kept(g, s);
    }
}

/// A template without placeholders is rendered as it stands.
pub proof fn law_plain_template(t: Seq<char>, pool: Map<Seq<char>, Tree>)
    requires
        forall|i: int| !opens_at(t, i),
    ensures
        rendered(t, pool) == Ok::<Seq<char>, Seq<char>>(t),
{
    lemma_plain_from(t, pool, 0);
    assert(t.skip(0) =~= t);
}

proof fn lemma_plain_from(t: Seq<char>, pool: Map<Seq<char>, Tree>, i: int)
    requires
        0 <= i <= t.len(),
        forall|k: int| !opens_at(t, k),
    ensures
        rendered_from(t, pool, i) == Ok::<Seq<char>, Seq<char>>(t.skip(i)),
    decreases t.len() - i,
{
    if i < t.len() {
        lemma_plain_from(t, pool, i + 1);
        assert(seq![t[i]] + t.skip(i + 1) =~= t.skip(i));
    } else {
        assert(t.skip(i) =~= Seq::empty());
    }
}

} // verus!
