//! What holds of every run, whatever happens to it.

use crate::attempts::RowView;
use crate::attempts::StageView;
use crate::failure::FailureView;
use crate::graph::Binding;
use crate::graph::Graph;
use crate::graph::LoopVariable;
use crate::graph::NodeKind;
use crate::graph::bindings_owned;
use crate::graph::lemma_owner;
use crate::graph::owned;
use crate::graph::variables_owned;
use crate::json::Tree;
use crate::model::Phase;
use crate::model::RunView;
use crate::model::WorkflowRunStatus;
use crate::model::advanced;
use crate::model::all_done;
use crate::model::answered;
use crate::model::begin;
use crate::model::bound;
use crate::model::current_iteration;
use crate::model::dispatch;
use crate::model::fail_run;
use crate::model::failed;
use crate::model::fed_back;
use crate::model::initialised;
use crate::model::inner_left;
use crate::model::interruption;
use crate::model::is_due;
use crate::model::is_running;
use crate::model::lemma_over_from;
use crate::model::lemma_ready_from;
use crate::model::lemma_step;
use crate::model::missing;
use crate::model::new_row;
use crate::model::outer_left;
use crate::model::over_from;
use crate::model::pending;
use crate::model::policy;
use crate::model::ready;
use crate::model::ready_from;
use crate::model::reset;
use crate::model::retries;
use crate::model::round_over;
use crate::model::rounds_left;
use crate::model::run_wf;
use crate::model::set_phase;
use crate::model::settle;
use crate::model::step;
use crate::model::swept;
use crate::model::total_rounds;
use crate::pool::lemma_variable_owned;
use crate::pool::value_or_null;
use crate::pool::variable;
use crate::text::decimal;
use vstd::prelude::*;

verus! {

/// An attempt has a prompt and a session, its own, once it has run; and it is no further retry
/// than its node's policy allows.
pub open spec fn row_kept(g: Graph, row: RowView, r: int) -> bool {
    &&& row.session == (if row.stage.ran() {
        Some(r as nat)
    } else {
        None
    })
    &&& row.prompt is Some <==> row.stage.ran()
    &&& row.injected is Some ==> row.stage.ran()
    &&& row.retry <= policy(g, row.node).max_retries
    &&& !policy(g, row.node).enabled ==> row.retry == 0
}

/// Each attempt is as it should be.
pub open spec fn rows_kept(g: Graph, s: RunView) -> bool {
    forall|r: int| #![trigger s.rows[r]] 0 <= r < s.rows.len() ==> row_kept(g, s.rows[r], r)
}

/// Where attempt `r` is open, it counts, its run is running, and its node is at work in the
/// attempt's round.
pub open spec fn open_row_kept(g: Graph, s: RunView, r: int) -> bool {
    let n = s.rows[r].node;
    s.rows[r].stage.open() ==> {
        &&& s.rows[r].live
        &&& s.status is Running
        &&& s.phases[n] is Active
        &&& g.node(n).parent matches Some(p) ==> s.phases[p as int] is Active
        &&& s.rows[r].iteration == current_iteration(g, s, n)
    }
}

/// Each open attempt is at work.
pub open spec fn open_kept(g: Graph, s: RunView) -> bool {
    forall|r: int| #![trigger s.rows[r]] 0 <= r < s.rows.len() ==> open_row_kept(g, s, r)
}

/// Where attempt `r` counts, it is at a node that has begun, in a round that has begun.
pub open spec fn live_row_kept(g: Graph, s: RunView, r: int) -> bool {
    let n = s.rows[r].node;
    s.rows[r].live ==> match g.node(n).parent {
        None => s.rows[r].iteration is None && s.phases[n] !is Idle,
        Some(p) => {
            &&& s.rows[r].iteration is Some
            &&& s.phases[p as int] !is Idle
            &&& s.rows[r].iteration->0 <= s.rounds[p as int].round
            &&& s.rows[r].iteration->0 == s.rounds[p as int].round && s.phases[p as int] is Active
                ==> s.phases[n] !is Idle
        },
    }
}

/// Each attempt that counts is at something that has begun.
pub open spec fn live_kept(g: Graph, s: RunView) -> bool {
    forall|r: int| #![trigger s.rows[r]] 0 <= r < s.rows.len() ==> live_row_kept(g, s, r)
}

/// No two attempts at one node in one round both count.
pub open spec fn single_kept(s: RunView) -> bool {
    forall|q: int, r: int| #![trigger s.rows[q], s.rows[r]]
        0 <= q < r < s.rows.len() && s.rows[q].live && s.rows[r].live && s.rows[q].node
            == s.rows[r].node ==> s.rows[q].iteration != s.rows[r].iteration
}

/// An open attempt is the latest at its node in its round.
pub open spec fn latest_kept(s: RunView) -> bool {
    forall|q: int, r: int| #![trigger s.rows[q], s.rows[r]]
        0 <= q < r < s.rows.len() && s.rows[q].stage.open() ==> !s.rows[r].at(
            s.rows[q].node,
            s.rows[q].iteration,
        )
}

/// The iteration `i` has the variables of its current round, and has collected a value for each
/// round before it.
pub open spec fn round_bound(g: Graph, s: RunView, i: int) -> bool {
    let item = variable(g.node(i).id@, "item"@);
    let index = variable(g.node(i).id@, "index"@);
    let round = s.rounds[i].round;
    &&& s.pool.dom().contains(item)
    &&& s.pool[item] == s.rounds[i].items[round as int]
    &&& s.pool.dom().contains(index)
    &&& s.pool[index] == Tree::Number(Some(round as u64), decimal(round))
    &&& s.rounds[i].collected.len() == round
}

/// While the run runs, each iteration at work has the variables of its current round.
pub open spec fn rounds_kept(g: Graph, s: RunView) -> bool {
    s.status is Running ==> forall|i: int| #![trigger s.rounds[i]]
        0 <= i < g.size() && g.node(i).kind is Iteration && s.phases[i] is Active ==> round_bound(
            g,
            s,
            i,
        )
}

/// A run has a reason for its failure exactly when it has failed, and has succeeded only when all
/// is done.
pub open spec fn status_kept(g: Graph, s: RunView) -> bool {
    &&& s.failure is Some <==> s.status is Failed
    &&& s.status is Succeeded ==> all_done(g, s)
}

/// What holds of every run.
pub open spec fn kept(g: Graph, s: RunView) -> bool {
    &&& rows_kept(g, s)
    &&& open_kept(g, s)
    &&& live_kept(g, s)
    &&& single_kept(s)
    &&& latest_kept(s)
    &&& rounds_kept(g, s)
    &&& status_kept(g, s)
}

/// Variables that do not belong to `id` are the same.
pub open spec fn same_but(a: Map<Seq<char>, Tree>, b: Map<Seq<char>, Tree>, id: Seq<char>) -> bool {
    forall|name: Seq<char>| #![trigger b.dom().contains(name)] #![trigger b[name]]
        !owned(name, id) ==> a.dom().contains(name) == b.dom().contains(name) && a[name] == b[name]
}

proof fn lemma_bound_same(pool: Map<Seq<char>, Tree>, bs: Seq<Binding>, n: nat, id: Seq<char>)
    requires
        bindings_owned(bs, id),
        n <= bs.len(),
    ensures
        same_but(pool, bound(pool, bs, n), id),
    decreases n,
{
    if n > 0 {
        lemma_bound_same(pool, bs, (n - 1) as nat, id);
        assert(owned(bs[n - 1].name@, id));
    }
}

proof fn lemma_initialised_same(
    pool: Map<Seq<char>, Tree>,
    vs: Seq<LoopVariable>,
    n: nat,
    id: Seq<char>,
)
    requires
        variables_owned(vs, id),
        n <= vs.len(),
    ensures
        same_but(pool, initialised(pool, vs, n), id),
    decreases n,
{
    if n > 0 {
        lemma_initialised_same(pool, vs, (n - 1) as nat, id);
        assert(owned(vs[n - 1].name@, id));
    }
}

proof fn lemma_fed_back_same(
    pool: Map<Seq<char>, Tree>,
    vs: Seq<LoopVariable>,
    n: nat,
    id: Seq<char>,
)
    requires
        variables_owned(vs, id),
        n <= vs.len(),
    ensures
        same_but(pool, fed_back(pool, vs, n), id),
    decreases n,
{
    if n > 0 {
        lemma_fed_back_same(pool, vs, (n - 1) as nat, id);
        assert(owned(vs[n - 1].name@, id));
    }
}

/// A node that begins sets variables of its own alone.
pub proof fn lemma_begin_same(g: Graph, s: RunView, i: int)
    requires
        run_wf(g, s),
        0 <= i < g.size(),
    ensures
        same_but(s.pool, begin(g, s, i).pool, g.node(i).id@),
{
    let id = g.node(i).id@;
    assert(g.nodes@[i].sets_own());
    lemma_variable_owned(id, "item"@);
    lemma_variable_owned(id, "index"@);
    lemma_variable_owned(id, "output"@);
    match g.node(i).kind {
        NodeKind::Output(bs) => {
            lemma_bound_same(s.pool, bs@, bs@.len(), id);
        },
        NodeKind::Loop(c) => {
            lemma_initialised_same(s.pool, c.variables@, c.variables@.len(), id);
            let p = initialised(s.pool, c.variables@, c.variables@.len());
            lemma_bound_same(p, c.outputs@, c.outputs@.len(), id);
        },
        _ => {},
    }
}

/// A round that is settled sets variables of its own node alone.
pub proof fn lemma_settle_same(g: Graph, s: RunView, i: int)
    requires
        run_wf(g, s),
        0 <= i < g.size(),
    ensures
        same_but(s.pool, settle(g, s, i).pool, g.node(i).id@),
{
    let id = g.node(i).id@;
    assert(g.nodes@[i].sets_own());
    lemma_variable_owned(id, "item"@);
    lemma_variable_owned(id, "index"@);
    lemma_variable_owned(id, "output"@);
    if let NodeKind::Loop(c) = g.node(i).kind {
        lemma_fed_back_same(s.pool, c.variables@, c.variables@.len(), id);
        lemma_bound_same(s.pool, c.outputs@, c.outputs@.len(), id);
    }
}

/// An iteration keeps the variables of its round while another node sets its own.
proof fn lemma_round_bound_same(g: Graph, s: RunView, t: RunView, i: int, k: int)
    requires
        g.wf(),
        0 <= i < g.size(),
        0 <= k < g.size(),
        i != k,
        same_but(s.pool, t.pool, g.node(i).id@),
        t.rounds[k] == s.rounds[k],
        round_bound(g, s, k),
    ensures
        round_bound(g, t, k),
{
    let own = g.nodes@[k].id@;
    let other = g.nodes@[i].id@;
    assert(own != other);
    assert(dotless_ids(g, i, k));
    lemma_variable_owned(own, "item"@);
    lemma_variable_owned(own, "index"@);
    if owned(variable(own, "item"@), other) {
        lemma_owner(variable(own, "item"@), own, other);
    }
    if owned(variable(own, "index"@), other) {
        lemma_owner(variable(own, "index"@), own, other);
    }
    assert(t.pool.dom().contains(variable(own, "item"@)));
    assert(t.pool.dom().contains(variable(own, "index"@)));
}

spec fn dotless_ids(g: Graph, i: int, k: int) -> bool {
    crate::graph::dotless(g.nodes@[i].id@) && crate::graph::dotless(g.nodes@[k].id@)
}

/// The two variables of a round are two.
proof fn lemma_item_index(id: Seq<char>)
    ensures
        variable(id, "item"@) != variable(id, "index"@),
{
    reveal_strlit("item");
    reveal_strlit("index");
    reveal_strlit(".");
    assert(variable(id, "item"@).len() != variable(id, "index"@).len());
}

/// Attempts that stay where they are stay single, as long as none counts that did not.
proof fn lemma_single_kept(s: RunView, t: RunView)
    requires
        single_kept(s),
        t.rows.len() == s.rows.len(),
        forall|q: int| #![trigger t.rows[q]]
            0 <= q < t.rows.len() ==> {
                &&& t.rows[q].node == s.rows[q].node
                &&& t.rows[q].iteration == s.rows[q].iteration
                &&& t.rows[q].live ==> s.rows[q].live
            },
    ensures
        single_kept(t),
{
    assert forall|a: int, b: int|
        #![trigger t.rows[a], t.rows[b]]
        0 <= a < b < t.rows.len() && t.rows[a].live && t.rows[b].live && t.rows[a].node
            == t.rows[b].node implies t.rows[a].iteration != t.rows[b].iteration by {
        assert(s.rows[a].iteration != s.rows[b].iteration);
    }
}

proof fn lemma_dispatch_kept(g: Graph, s: RunView, r: int)
    requires
        run_wf(g, s),
        kept(g, s),
        s.status is Running,
        0 <= r < s.rows.len(),
        s.rows[r].stage is Waiting,
    ensures
        kept(g, dispatch(g, s, r)),
{
    let t = dispatch(g, s, r);
    assert(row_kept(g, s.rows[r], r));
    assert(t.rows.len() == s.rows.len());
    assert forall|q: int| #![trigger t.rows[q]] 0 <= q < t.rows.len() implies row_kept(
        g,
        t.rows[q],
        q,
    ) && t.rows[q].live == s.rows[q].live && t.rows[q].node == s.rows[q].node && t.rows[q].iteration
        == s.rows[q].iteration by {
        assert(row_kept(g, s.rows[q], q));
    }
    lemma_single_kept(s, t);
}

proof fn lemma_fail_run_kept(g: Graph, s: RunView, f: FailureView)
    requires
        run_wf(g, s),
        rows_kept(g, s),
        live_kept(g, s),
        single_kept(s),
    ensures
        kept(g, fail_run(s, f)),
{
    let t = fail_run(s, f);
    assert forall|q: int| #![trigger t.rows[q]] 0 <= q < t.rows.len() implies row_kept(
        g,
        t.rows[q],
        q,
    ) && t.rows[q].live == s.rows[q].live && t.rows[q].node == s.rows[q].node && t.rows[q].iteration
        == s.rows[q].iteration && !t.rows[q].stage.open() by {
        assert(row_kept(g, s.rows[q], q));
    }
    lemma_single_kept(s, t);
}

/// A node that is not at work may take its place in the run, as long as no attempt that counts is
/// at it, or at one of its members.
proof fn lemma_place_kept(g: Graph, s: RunView, t: RunView, i: int)
    requires
        run_wf(g, s),
        kept(g, s),
        s.status is Running,
        t.status is Running,
        t.failure == s.failure,
        t.rows == s.rows,
        t.phases.len() == s.phases.len(),
        0 <= i < g.size(),
        ready(g, s, i),
        t.phases[i] !is Idle,
        forall|k: int| #![trigger t.phases[k]]
            0 <= k < g.size() && k != i ==> t.phases[k] == s.phases[k],
        forall|k: int| #![trigger t.rounds[k]]
            0 <= k < g.size() && k != i ==> t.rounds[k] == s.rounds[k],
        same_but(s.pool, t.pool, g.node(i).id@),
        g.node(i).kind is Iteration && t.phases[i] is Active ==> round_bound(g, t, i),
    ensures
        kept(g, t),
{
    assert forall|r: int| #![trigger t.rows[r]] 0 <= r < t.rows.len() implies open_row_kept(g, t, r)
        && live_row_kept(g, t, r) by {
        let n = s.rows[r].node;
        assert(0 <= n < g.size());
        assert(open_row_kept(g, s, r));
        assert(live_row_kept(g, s, r));
        assert(g.nodes@[n].parent == g.node(n).parent);
        if n != i {
            assert(t.phases[n] == s.phases[n]);
        }
        if let Some(p) = g.node(n).parent {
            if p != i {
                assert(t.phases[p as int] == s.phases[p as int]);
                assert(t.rounds[p as int] == s.rounds[p as int]);
            }
        }
    }
    assert(rounds_kept(g, t)) by {
        assert forall|k: int| #![trigger t.rounds[k]]
            0 <= k < g.size() && g.node(k).kind is Iteration && t.phases[k] is Active implies round_bound(
            g,
            t,
            k,
        ) by {
            if k != i {
                assert(t.phases[k] == s.phases[k]);
                assert(round_bound(g, s, k)) by {
                    assert(s.rounds[k] == t.rounds[k]);
                }
                lemma_round_bound_same(g, s, t, i, k);
            }
        }
    }
}

proof fn lemma_push_kept(g: Graph, s: RunView, i: int)
    requires
        run_wf(g, s),
        kept(g, s),
        s.status is Running,
        0 <= i < g.size(),
        g.node(i).kind is Agent,
        ready(g, s, i),
    ensures
        ({
            let t = RunView {
                rows: s.rows.push(new_row(s.rows, i, current_iteration(g, s, i), 0, 0)),
                phases: s.phases.update(i, Phase::Active),
                ..s
            };
            run_wf(g, t) && kept(g, t)
        }),
{
    let placed = set_phase(s, i, Phase::Active);
    lemma_place_kept(g, s, placed, i);
    let row = new_row(s.rows, i, current_iteration(g, s, i), 0, 0);
    let t = RunView { rows: s.rows.push(row), ..placed };
    assert(g.nodes@[i].parent == g.node(i).parent);
    assert(row_kept(g, row, s.rows.len() as int));
    assert forall|q: int| #![trigger t.rows[q]] 0 <= q < s.rows.len() implies t.rows[q]
        == placed.rows[q] && row_kept(g, t.rows[q], q) by {
        assert(row_kept(g, s.rows[q], q));
    }
    assert(single_kept(t)) by {
        assert forall|a: int, b: int|
            #![trigger t.rows[a], t.rows[b]]
            0 <= a < b < t.rows.len() && t.rows[a].live && t.rows[b].live && t.rows[a].node
                == t.rows[b].node implies t.rows[a].iteration != t.rows[b].iteration by {
            if b < s.rows.len() {
                assert(s.rows[a].iteration != s.rows[b].iteration);
            } else {
                assert(live_row_kept(g, s, a));
            }
        }
    }
}

proof fn lemma_begin_kept(g: Graph, s: RunView, i: int)
    requires
        run_wf(g, s),
        kept(g, s),
        s.status is Running,
        0 <= i < g.size(),
        ready(g, s, i),
    ensures
        kept(g, begin(g, s, i)),
{
    let t = begin(g, s, i);
    lemma_begin_same(g, s, i);
    match g.node(i).kind {
        NodeKind::Agent(_) => {
            lemma_push_kept(g, s, i);
            let u = RunView {
                rows: s.rows.push(new_row(s.rows, i, current_iteration(g, s, i), 0, 0)),
                phases: s.phases.update(i, Phase::Active),
                ..s
            };
            lemma_dispatch_kept(g, u, s.rows.len() as int);
        },
        NodeKind::Iteration(c) => {
            lemma_item_index(g.node(i).id@);
            if value_or_null(s.pool, c.iterator@) is Array {
                lemma_place_kept(g, s, t, i);
            } else {
                let failing = RunView {
                    status: WorkflowRunStatus::Failed,
                    ..set_phase(s, i, Phase::Active)
                };
                assert forall|r: int| #![trigger failing.rows[r]] 0 <= r < failing.rows.len() implies row_kept(
                    g,
                    failing.rows[r],
                    r,
                ) && live_row_kept(g, failing, r) by {
                    assert(row_kept(g, s.rows[r], r));
                    assert(live_row_kept(g, s, r));
                    assert(0 <= s.rows[r].node < g.size());
                    assert(g.nodes@[s.rows[r].node].parent == g.node(s.rows[r].node).parent);
                }
                assert(run_wf(g, failing));
                assert(single_kept(failing));
                lemma_fail_run_kept(g, failing, missing(c.iterator@));
                assert(fail_run(failing, missing(c.iterator@)) == t);
            }
        },
        _ => {
            lemma_place_kept(g, s, t, i);
        },
    }
}

proof fn lemma_settle_kept(g: Graph, s: RunView, i: int)
    requires
        run_wf(g, s),
        kept(g, s),
        s.status is Running,
        0 <= i < g.size(),
        round_over(g, s, i),
    ensures
        kept(g, settle(g, s, i)),
{
    let t = settle(g, s, i);
    lemma_settle_same(g, s, i);
    lemma_item_index(g.node(i).id@);
    assert(s.rounds[i].round < total_rounds(g, s, i));
    assert(g.nodes@[i].parent is None);
    assert(t.rows == s.rows);
    assert forall|k: int| #![trigger t.phases[k]]
        0 <= k < g.size() && k != i && !g.member(k, i) implies t.phases[k] == s.phases[k] by {}
    assert forall|k: int| #![trigger t.rounds[k]] 0 <= k < g.size() && k != i implies t.rounds[k]
        == s.rounds[k] by {}
    assert forall|r: int| #![trigger t.rows[r]] 0 <= r < t.rows.len() implies open_row_kept(g, t, r)
        && live_row_kept(g, t, r) by {
        let n = s.rows[r].node;
        assert(0 <= n < g.size());
        assert(open_row_kept(g, s, r));
        assert(live_row_kept(g, s, r));
        assert(g.nodes@[n].parent == g.node(n).parent);
        assert(n != i);
        if g.member(n, i) {
            assert(s.phases[n] is Done);
        } else {
            assert(t.phases[n] == s.phases[n]);
            if let Some(p) = g.node(n).parent {
                assert(p != i);
                assert(g.nodes@[p as int].parent is None);
                assert(!g.member(p as int, i));
                assert(t.phases[p as int] == s.phases[p as int]);
                assert(t.rounds[p as int] == s.rounds[p as int]);
            }
        }
    }
    assert(rounds_kept(g, t)) by {
        assert forall|k: int| #![trigger t.rounds[k]]
            0 <= k < g.size() && g.node(k).kind is Iteration && t.phases[k] is Active implies round_bound(
            g,
            t,
            k,
        ) by {
            if k != i {
                assert(g.nodes@[k].kind == g.node(k).kind);
                assert(!g.member(k, i));
                assert(t.phases[k] == s.phases[k]);
                assert(round_bound(g, s, k)) by {
                    assert(s.rounds[k] == t.rounds[k]);
                }
                lemma_round_bound_same(g, s, t, i, k);
            } else {
                assert(round_bound(g, s, i)) by {
                    assert(s.rounds[i].round == s.rounds[i].round);
                }
            }
        }
    }
}

/// Coming to rest keeps what holds of every run.
pub proof fn lemma_advanced_kept(g: Graph, s: RunView)
    requires
        run_wf(g, s),
        kept(g, s),
    ensures
        kept(g, advanced(g, s)),
    decreases outer_left(g, s), rounds_left(g, s), inner_left(g, s),
{
    lemma_step(g, s);
    match step(g, s) {
        Some(t) => {
            lemma_ready_from(g, s, 0);
            lemma_over_from(g, s, 0);
            match ready_from(g, s, 0) {
                Some(i) => {
                    lemma_begin_kept(g, s, i);
                },
                None => {
                    lemma_settle_kept(g, s, over_from(g, s, 0)->0);
                },
            }
            lemma_advanced_kept(g, t);
        },
        None => {
            if s.status is Running && all_done(g, s) {
                lemma_success_kept(g, s);
            }
        },
    }
}

proof fn lemma_success_kept(g: Graph, s: RunView)
    requires
        run_wf(g, s),
        kept(g, s),
        s.status is Running,
        all_done(g, s),
    ensures
        kept(g, RunView { status: WorkflowRunStatus::Succeeded, ..s }),
{
    let t = RunView { status: WorkflowRunStatus::Succeeded, ..s };
    assert forall|r: int| #![trigger t.rows[r]] 0 <= r < t.rows.len() implies open_row_kept(g, t, r)
        && live_row_kept(g, t, r) && row_kept(g, t.rows[r], r) by {
        let n = s.rows[r].node;
        assert(0 <= n < g.size());
        assert(row_kept(g, s.rows[r], r));
        assert(open_row_kept(g, s, r));
        assert(live_row_kept(g, s, r));
        assert(g.nodes@[n].parent == g.node(n).parent);
        if let Some(p) = g.node(n).parent {
            assert(g.nodes@[p as int].parent is None);
            assert(s.phases[p as int] is Done);
        } else {
            assert(s.phases[n] is Done);
        }
    }
}

/// The attempt that an agent answered is over.
pub proof fn lemma_answered_kept(g: Graph, s: RunView, r: int, output: Seq<char>)
    requires
        run_wf(g, s),
        kept(g, s),
        is_running(s, r),
    ensures
        kept(g, answered(g, s, r, output)),
{
    let t = answered(g, s, r, output);
    let i = s.rows[r].node;
    assert(0 <= i < g.size());
    assert(row_kept(g, s.rows[r], r));
    assert(open_row_kept(g, s, r));
    lemma_variable_owned(g.node(i).id@, "output"@);
    assert(same_but(s.pool, t.pool, g.node(i).id@));
    assert forall|q: int| #![trigger t.rows[q]] 0 <= q < t.rows.len() implies open_row_kept(g, t, q)
        && live_row_kept(g, t, q) && row_kept(g, t.rows[q], q) by {
        let n = s.rows[q].node;
        assert(0 <= n < g.size());
        assert(row_kept(g, s.rows[q], q));
        assert(open_row_kept(g, s, q));
        assert(live_row_kept(g, s, q));
        assert(g.nodes@[n].parent == g.node(n).parent);
        if let Some(p) = g.node(n).parent {
            assert(g.nodes@[p as int].kind.composite());
            assert(p != i);
        }
        if q != r && n == i && s.rows[q].stage.open() {
            if q < r {
                assert(s.rows[q].iteration != s.rows[r].iteration);
            } else {
                assert(s.rows[r].iteration != s.rows[q].iteration);
            }
        }
    }
    lemma_single_kept(s, t);
    assert(rounds_kept(g, t)) by {
        assert forall|k: int| #![trigger t.rounds[k]]
            0 <= k < g.size() && g.node(k).kind is Iteration && t.phases[k] is Active implies round_bound(
            g,
            t,
            k,
        ) by {
            assert(k != i);
            assert(round_bound(g, s, k)) by {
                assert(s.rounds[k] == t.rounds[k]);
            }
            lemma_round_bound_same(g, s, t, i, k);
        }
    }
}

/// An attempt that failed is over, and a retry takes its place or the run fails.
pub proof fn lemma_failed_kept(g: Graph, s: RunView, r: int, f: FailureView, now: u64)
    requires
        run_wf(g, s),
        kept(g, s),
        is_running(s, r),
    ensures
        kept(g, failed(g, s, r, f, now)),
{
    let t = failed(g, s, r, f, now);
    let row = RowView { stage: StageView::Failed(f), ..s.rows[r] };
    let p = policy(g, row.node);
    assert(row_kept(g, s.rows[r], r));
    assert(open_row_kept(g, s, r));
    assert(live_row_kept(g, s, r));
    if retries(p, row.retry, f.kind) {
        let rows = s.rows.update(r, RowView { live: false, ..row });
        assert(row_kept(g, t.rows[s.rows.len() as int], s.rows.len() as int));
        assert forall|q: int| #![trigger t.rows[q]] 0 <= q < t.rows.len() implies open_row_kept(
            g,
            t,
            q,
        ) && live_row_kept(g, t, q) && row_kept(g, t.rows[q], q) by {
            if q < s.rows.len() {
                assert(row_kept(g, s.rows[q], q));
                assert(open_row_kept(g, s, q));
                assert(live_row_kept(g, s, q));
            }
        }
        assert(single_kept(t)) by {
            assert forall|a: int, b: int|
                #![trigger t.rows[a], t.rows[b]]
                0 <= a < b < t.rows.len() && t.rows[a].live && t.rows[b].live && t.rows[a].node
                    == t.rows[b].node implies t.rows[a].iteration != t.rows[b].iteration by {
                assert(a != r && b != r);
                if b < s.rows.len() {
                    assert(s.rows[a].iteration != s.rows[b].iteration);
                } else if a < r {
                    assert(s.rows[a].iteration != s.rows[r].iteration);
                } else {
                    assert(s.rows[r].iteration != s.rows[a].iteration);
                }
            }
        }
        assert(rounds_kept(g, t)) by {
            assert forall|k: int| #![trigger t.rounds[k]]
                0 <= k < g.size() && g.node(k).kind is Iteration && t.phases[k] is Active implies round_bound(
                g,
                t,
                k,
            ) by {
                assert(s.rounds[k] == t.rounds[k]);
                assert(round_bound(g, s, k));
            }
        }
    } else {
        let u = RunView { rows: s.rows.update(r, row), ..s };
        assert forall|q: int| #![trigger u.rows[q]] 0 <= q < u.rows.len() implies live_row_kept(
            g,
            u,
            q,
        ) && row_kept(g, u.rows[q], q) by {
            assert(row_kept(g, s.rows[q], q));
            assert(live_row_kept(g, s, q));
        }
        lemma_single_kept(s, u);
        assert(run_wf(g, u)) by {
            assert forall|q: int| #![trigger u.rows[q]] 0 <= q < u.rows.len() implies 0
                <= u.rows[q].node < g.size() && g.node(u.rows[q].node).kind is Agent by {
                assert(0 <= s.rows[q].node < g.size());
            }
        }
        lemma_fail_run_kept(g, u, f);
    }
}

/// A waiting attempt that is handed to its agent runs.
pub proof fn lemma_woken_kept(g: Graph, s: RunView, r: int, now: u64)
    requires
        run_wf(g, s),
        kept(g, s),
        is_due(s, r, now),
    ensures
        kept(g, dispatch(g, s, r)),
{
    lemma_dispatch_kept(g, s, r);
}

/// A run whose process was restarted has failed.
pub proof fn lemma_swept_kept(g: Graph, s: RunView)
    requires
        run_wf(g, s),
        kept(g, s),
    ensures
        kept(g, swept(s)),
{
    if s.status is Running {
        lemma_fail_run_kept(g, s, interruption());
    }
}

/// A failed run is made ready to go on.
pub proof fn lemma_reset_kept(g: Graph, s: RunView)
    requires
        run_wf(g, s),
        kept(g, s),
        s.status is Failed,
    ensures
        kept(g, reset(g, s)),
{
    let t = reset(g, s);
    assert forall|q: int| #![trigger t.rows[q]] 0 <= q < t.rows.len() implies open_row_kept(g, t, q)
        && live_row_kept(g, t, q) && row_kept(g, t.rows[q], q) by {
        let n = s.rows[q].node;
        assert(0 <= n < g.size());
        assert(row_kept(g, s.rows[q], q));
        assert(open_row_kept(g, s, q));
        assert(live_row_kept(g, s, q));
        assert(g.nodes@[n].parent == g.node(n).parent);
        if let Some(p) = g.node(n).parent {
            assert(g.nodes@[p as int].parent is None);
        }
    }
    lemma_single_kept(s, t);
}

/// A run that begins is as it should be.
pub proof fn lemma_started_kept(g: Graph, s: RunView)
    requires
        run_wf(g, s),
        kept(g, s),
        s.status is Pending,
    ensures
        kept(g, RunView { status: WorkflowRunStatus::Running, ..s }),
{
}

/// A run that has not begun is as it should be.
pub proof fn lemma_pending_kept(g: Graph)
    requires
        g.wf(),
    ensures
        kept(g, pending(g)),
{
}

} // verus!
