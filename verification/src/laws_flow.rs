//! How a run goes from node to node and from round to round.

use crate::attempts::StageView;
use crate::attempts::attempts_ran;
use crate::failure::FailureView;
use crate::failure::NodeFailureKind;
use crate::graph::Binding;
use crate::graph::Condition;
use crate::graph::Graph;
use crate::graph::IterationConfig;
use crate::graph::LoopConfig;
use crate::graph::LoopVariable;
use crate::graph::NodeKind;
use crate::graph::lemma_owner;
use crate::graph::owned;
use crate::json::Tree;
use crate::kept::kept;
use crate::kept::lemma_begin_same;
use crate::kept::lemma_settle_same;
use crate::kept::open_row_kept;
use crate::laws_events::cut_short;
use crate::laws_events::same_at;
use crate::laws_events::value_in;
use crate::laws_text::law_a_variable_is_named_after_its_node;
use crate::model::Phase;
use crate::model::RunView;
use crate::model::WorkflowRunStatus;
use crate::model::advanced;
use crate::model::all_done;
use crate::model::answered;
use crate::model::begin;
use crate::model::bound;
use crate::model::completed;
use crate::model::dispatch;
use crate::model::fed_back;
use crate::model::initialised;
use crate::model::inner_left;
use crate::model::is_running;
use crate::model::lemma_events;
use crate::model::lemma_over_from;
use crate::model::lemma_ready_from;
use crate::model::lemma_step;
use crate::model::outer_left;
use crate::model::over_from;
use crate::model::ready;
use crate::model::ready_from;
use crate::model::reset;
use crate::model::resumed;
use crate::model::round_over;
use crate::model::rounds_left;
use crate::model::run_wf;
use crate::model::settle;
use crate::model::step;
use crate::text::decimal;
use vstd::prelude::*;

verus! {

// ---------------------------------------------------------------------------------------------
// Variables that are set one after the other
// ---------------------------------------------------------------------------------------------

/// Bindings leave variables that none of them names as they were.
pub proof fn law_bindings_leave_other_variables(
    pool: Map<Seq<char>, Tree>,
    vs: Seq<Binding>,
    n: nat,
    name: Seq<char>,
)
    requires
        n <= vs.len(),
        forall|k: int| #![trigger vs[k]] 0 <= k < n ==> vs[k].name@ != name,
    ensures
        same_at(pool, bound(pool, vs, n), name),
    decreases n,
{
    if n > 0 {
        law_bindings_leave_other_variables(pool, vs, (n - 1) as nat, name);
        assert(vs[n - 1].name@ != name);
    }
}

/// A binding gives its variable the value that its source has when its turn comes: the one from
/// before all bindings, unless an earlier one has set it. Of two with one name the later one stays.
pub proof fn law_bindings_are_set_in_turn(
    pool: Map<Seq<char>, Tree>,
    vs: Seq<Binding>,
    n: nat,
    k: int,
)
    requires
        0 <= k < n <= vs.len(),
        forall|j: int| #![trigger vs[j]] k < j < n ==> vs[j].name@ != vs[k].name@,
    ensures
        bound(pool, vs, n).dom().contains(vs[k].name@),
        bound(pool, vs, n)[vs[k].name@] == value_in(bound(pool, vs, k as nat), vs[k].source@),
        (forall|j: int| #![trigger vs[j]] 0 <= j < k ==> vs[j].name@ != vs[k].source@) ==> bound(
            pool,
            vs,
            n,
        )[vs[k].name@] == value_in(pool, vs[k].source@),
    decreases n,
{
    if k < n - 1 {
        law_bindings_are_set_in_turn(pool, vs, (n - 1) as nat, k);
        assert(vs[n - 1].name@ != vs[k].name@);
    } else if forall|j: int| #![trigger vs[j]] 0 <= j < k ==> vs[j].name@ != vs[k].source@ {
        law_bindings_leave_other_variables(pool, vs, k as nat, vs[k].source@);
    }
}

/// What is fed back leaves variables that are no loop variables as they were.
pub proof fn law_feedback_leaves_other_variables(
    pool: Map<Seq<char>, Tree>,
    vs: Seq<LoopVariable>,
    n: nat,
    name: Seq<char>,
)
    requires
        n <= vs.len(),
        forall|k: int| #![trigger vs[k]] 0 <= k < n ==> vs[k].name@ != name,
    ensures
        same_at(pool, fed_back(pool, vs, n), name),
    decreases n,
{
    if n > 0 {
        law_feedback_leaves_other_variables(pool, vs, (n - 1) as nat, name);
        assert(vs[n - 1].name@ != name);
    }
}

/// A loop variable that is fed back takes the value that its feedback variable has when its turn
/// comes: the one from before, unless an earlier loop variable is fed back into it. Of two with one
/// name the later one stays.
pub proof fn law_loop_variables_are_fed_back_in_turn(
    pool: Map<Seq<char>, Tree>,
    vs: Seq<LoopVariable>,
    n: nat,
    k: int,
)
    requires
        0 <= k < n <= vs.len(),
        forall|j: int| #![trigger vs[j]] k < j < n ==> vs[j].name@ != vs[k].name@,
    ensures
        fed_back(pool, vs, n).dom().contains(vs[k].name@),
        fed_back(pool, vs, n)[vs[k].name@] == value_in(
            fed_back(pool, vs, k as nat),
            vs[k].feedback@,
        ),
        (forall|j: int| #![trigger vs[j]] 0 <= j < k ==> vs[j].name@ != vs[k].feedback@) ==> fed_back(
            pool,
            vs,
            n,
        )[vs[k].name@] == value_in(pool, vs[k].feedback@),
    decreases n,
{
    if k < n - 1 {
        law_loop_variables_are_fed_back_in_turn(pool, vs, (n - 1) as nat, k);
        assert(vs[n - 1].name@ != vs[k].name@);
    } else if forall|j: int| #![trigger vs[j]] 0 <= j < k ==> vs[j].name@ != vs[k].feedback@ {
        law_feedback_leaves_other_variables(pool, vs, k as nat, vs[k].feedback@);
    }
}

/// Initial values leave variables that are no loop variables as they were.
pub proof fn law_initial_values_leave_other_variables(
    pool: Map<Seq<char>, Tree>,
    vs: Seq<LoopVariable>,
    n: nat,
    name: Seq<char>,
)
    requires
        n <= vs.len(),
        forall|k: int| #![trigger vs[k]] 0 <= k < n ==> vs[k].name@ != name,
    ensures
        same_at(pool, initialised(pool, vs, n), name),
    decreases n,
{
    if n > 0 {
        law_initial_values_leave_other_variables(pool, vs, (n - 1) as nat, name);
        assert(vs[n - 1].name@ != name);
    }
}

/// A loop variable begins with its initial value, the later of two with one name.
pub proof fn law_loop_variables_begin_with_their_constants(
    pool: Map<Seq<char>, Tree>,
    vs: Seq<LoopVariable>,
    n: nat,
    k: int,
)
    requires
        0 <= k < n <= vs.len(),
        forall|j: int| #![trigger vs[j]] k < j < n ==> vs[j].name@ != vs[k].name@,
    ensures
        initialised(pool, vs, n).dom().contains(vs[k].name@),
        initialised(pool, vs, n)[vs[k].name@] == vs[k].initial@,
    decreases n,
{
    if k < n - 1 {
        law_loop_variables_begin_with_their_constants(pool, vs, (n - 1) as nat, k);
        assert(vs[n - 1].name@ != vs[k].name@);
    }
}

// ---------------------------------------------------------------------------------------------
// What comes next
// ---------------------------------------------------------------------------------------------

/// A node may begin: it is idle, what it is a member of is at work, and each edge into it comes
/// from a node that is done, or from what it is a member of.
pub open spec fn may_begin(g: Graph, s: RunView, i: int) -> bool {
    &&& s.phases[i] is Idle
    &&& match g.nodes@[i].parent {
        Some(p) => s.phases[p as int] is Active,
        None => true,
    }
    &&& forall|k: int| #![trigger g.edges@[k]]
        0 <= k < g.edges@.len() && g.edges@[k].1 == i ==> s.phases[g.edges@[k].0 as int] is Done
            || g.nodes@[i].parent == Some(g.edges@[k].0)
}

/// Node `j` is a member of node `i`.
pub open spec fn within(g: Graph, j: int, i: int) -> bool {
    match g.nodes@[j].parent {
        Some(p) => p == i,
        None => false,
    }
}

/// A loop or an iteration has come to the end of a round: it is at work, and its members are done.
pub open spec fn may_settle(g: Graph, s: RunView, i: int) -> bool {
    &&& g.nodes@[i].kind is Loop || g.nodes@[i].kind is Iteration
    &&& s.phases[i] is Active
    &&& forall|j: int| #![trigger within(g, j, i)]
        0 <= j < g.nodes@.len() && within(g, j, i) ==> s.phases[j] is Done
}

proof fn lemma_may(g: Graph, s: RunView, i: int)
    requires
        run_wf(g, s),
        0 <= i < g.size(),
    ensures
        may_begin(g, s, i) == ready(g, s, i),
        may_settle(g, s, i) == round_over(g, s, i),
{
    if may_begin(g, s, i) {
        assert(ready(g, s, i));
    }
    if ready(g, s, i) {
        assert forall|k: int| #![trigger g.edges@[k]]
            0 <= k < g.edges@.len() && g.edges@[k].1 == i implies s.phases[g.edges@[k].0 as int] is Done
            || g.nodes@[i].parent == Some(g.edges@[k].0) by {
            assert(crate::model::lets_pass(g, s, g.edges@[k].0 as int, i));
        }
    }
    if may_settle(g, s, i) {
        assert forall|j: int| #![trigger g.member(j, i)]
            0 <= j < g.size() && g.member(j, i) implies s.phases[j] is Done by {
            assert(within(g, j, i));
        }
    }
    if round_over(g, s, i) {
        assert forall|j: int| #![trigger within(g, j, i)]
            0 <= j < g.nodes@.len() && within(g, j, i) implies s.phases[j] is Done by {
            assert(g.member(j, i));
        }
    }
}

/// As long as a run runs, the first node that may begin does.
pub proof fn law_the_first_node_that_may_begin_does(g: Graph, s: RunView, i: int)
    requires
        run_wf(g, s),
        s.status is Running,
        0 <= i < g.size(),
        may_begin(g, s, i),
        forall|k: int| 0 <= k < i ==> !may_begin(g, s, k),
    ensures
        advanced(g, s) == advanced(g, begin(g, s, i)),
{
    lemma_may(g, s, i);
    lemma_ready_from(g, s, 0);
    lemma_step(g, s);
    let k = ready_from(g, s, 0)->0;
    lemma_may(g, s, k);
    lemma_first_ready(g, s, 0, k);
    assert(k == i);
}

proof fn lemma_first_ready(g: Graph, s: RunView, i: int, k: int)
    requires
        0 <= i,
        ready_from(g, s, i) == Some(k),
    ensures
        forall|j: int| i <= j < k ==> !ready(g, s, j),
    decreases g.size() - i,
{
    if i < g.size() && !ready(g, s, i) {
        lemma_first_ready(g, s, i + 1, k);
    }
}

proof fn lemma_first_over(g: Graph, s: RunView, i: int, k: int)
    requires
        0 <= i,
        over_from(g, s, i) == Some(k),
    ensures
        forall|j: int| i <= j < k ==> !round_over(g, s, j),
    decreases g.size() - i,
{
    if i < g.size() && !round_over(g, s, i) {
        lemma_first_over(g, s, i + 1, k);
    }
}

/// Where no node may begin, the first loop or iteration that has come to the end of a round settles
/// it.
pub proof fn law_the_first_round_that_is_over_is_settled(g: Graph, s: RunView, i: int)
    requires
        run_wf(g, s),
        s.status is Running,
        forall|k: int| 0 <= k < g.size() ==> !may_begin(g, s, k),
        0 <= i < g.size(),
        may_settle(g, s, i),
        forall|k: int| 0 <= k < i ==> !may_settle(g, s, k),
    ensures
        advanced(g, s) == advanced(g, settle(g, s, i)),
{
    lemma_ready_from(g, s, 0);
    if let Some(k) = ready_from(g, s, 0) {
        lemma_may(g, s, k);
        assert(!may_begin(g, s, k));
    }
    lemma_may(g, s, i);
    lemma_over_from(g, s, 0);
    lemma_step(g, s);
    let k = over_from(g, s, 0)->0;
    lemma_may(g, s, k);
    lemma_first_over(g, s, 0, k);
    assert(k == i);
}

/// A run that does not run stays as it is. One that runs, and in which nothing may begin or settle,
/// has succeeded once all nodes outside of loops and iterations are done, and else waits as it is.
pub proof fn law_a_run_at_rest(g: Graph, s: RunView)
    requires
        run_wf(g, s),
    ensures
        s.status !is Running ==> advanced(g, s) == s,
        s.status is Running && (forall|k: int|
            0 <= k < g.size() ==> !may_begin(g, s, k) && !may_settle(g, s, k)) ==> advanced(g, s)
            == if forall|i: int| #![trigger g.nodes@[i]]
            0 <= i < g.nodes@.len() && g.nodes@[i].parent is None ==> s.phases[i] is Done {
            RunView { status: WorkflowRunStatus::Succeeded, ..s }
        } else {
            s
        },
{
    if s.status is Running && forall|k: int|
        0 <= k < g.size() ==> !may_begin(g, s, k) && !may_settle(g, s, k) {
        lemma_ready_from(g, s, 0);
        lemma_over_from(g, s, 0);
        if let Some(k) = ready_from(g, s, 0) {
            lemma_may(g, s, k);
            assert(!may_begin(g, s, k));
        }
        if let Some(k) = over_from(g, s, 0) {
            lemma_may(g, s, k);
            assert(!may_settle(g, s, k));
        }
        assert(step(g, s) is None);
        if all_done(g, s) {
            assert forall|i: int| #![trigger g.nodes@[i]]
                0 <= i < g.nodes@.len() && g.nodes@[i].parent is None implies s.phases[i] is Done by {
                assert(g.node(i) == g.nodes@[i]);
            }
        } else {
            let i = choose|i: int|
                #![trigger s.phases[i]]
                0 <= i < g.size() && g.node(i).parent is None && s.phases[i] !is Done;
            assert(g.nodes@[i].parent is None);
        }
    }
}

// ---------------------------------------------------------------------------------------------
// A node begins
// ---------------------------------------------------------------------------------------------

/// Node `i` comes to the given phase, and no other changes its own.
pub open spec fn comes_to(s: RunView, t: RunView, i: int, phase: Phase) -> bool {
    &&& t.phases.len() == s.phases.len()
    &&& t.phases[i] == phase
    &&& forall|k: int| #![trigger t.phases[k]]
        0 <= k < s.phases.len() && k != i ==> t.phases[k] == s.phases[k]
}

/// The status, the failure and the attempts are the same.
pub open spec fn same_attempts(s: RunView, t: RunView) -> bool {
    s.status == t.status && s.failure == t.failure && s.rows == t.rows
}

/// The rounds of nodes other than `i` are the same.
pub open spec fn same_rounds_but(s: RunView, t: RunView, i: int) -> bool {
    t.rounds.len() == s.rounds.len() && forall|k: int| #![trigger t.rounds[k]]
        0 <= k < s.rounds.len() && k != i ==> t.rounds[k] == s.rounds[k]
}

/// A start node is done at once, and sets nothing.
pub proof fn law_a_start_node_is_done_at_once(g: Graph, s: RunView, i: int)
    requires
        run_wf(g, s),
        0 <= i < g.size(),
        g.nodes@[i].kind is Start,
    ensures
        comes_to(s, begin(g, s, i), i, Phase::Done),
        same_attempts(s, begin(g, s, i)),
        begin(g, s, i).rounds == s.rounds,
        begin(g, s, i).pool == s.pool,
{
}

/// An output node sets its bindings, and is done at once.
pub proof fn law_an_output_node_sets_its_bindings(g: Graph, s: RunView, i: int, bs: Vec<Binding>)
    requires
        run_wf(g, s),
        0 <= i < g.size(),
        g.nodes@[i].kind == NodeKind::Output(bs),
    ensures
        comes_to(s, begin(g, s, i), i, Phase::Done),
        same_attempts(s, begin(g, s, i)),
        begin(g, s, i).rounds == s.rounds,
        begin(g, s, i).pool == bound(s.pool, bs@, bs@.len()),
{
}

/// An agent that begins is at work on one further attempt, in the current round of what it is a
/// member of, no retry yet; the attempt is handed out at once.
pub proof fn law_an_agent_begins_with_an_attempt(g: Graph, s: RunView, i: int, t: RunView)
    requires
        run_wf(g, s),
        0 <= i < g.size(),
        g.nodes@[i].kind is Agent,
        comes_to(s, t, i, Phase::Active),
        t.status == s.status,
        t.failure == s.failure,
        t.rounds == s.rounds,
        t.pool == s.pool,
        t.rows.len() == s.rows.len() + 1,
        t.rows.subrange(0, s.rows.len() as int) == s.rows,
        ({
            let row = t.rows[s.rows.len() as int];
            let iteration = match g.nodes@[i].parent {
                Some(p) => Some(s.rounds[p as int].round),
                None => None,
            };
            let ran = attempts_ran(s.rows, i, iteration);
            &&& row.node == i
            &&& row.iteration == iteration
            &&& row.attempt == if ran < u64::MAX {
                ran + 1
            } else {
                u64::MAX as nat
            }
            &&& row.retry == 0
            &&& row.stage == StageView::Waiting(0)
            &&& row.live
            &&& row.prompt is None
            &&& row.injected is None
            &&& row.session is None
        }),
    ensures
        begin(g, s, i) == dispatch(g, t, s.rows.len() as int),
{
    let n = s.rows.len() as int;
    let iteration = crate::model::current_iteration(g, s, i);
    let row = crate::model::new_row(s.rows, i, iteration, 0, 0);
    assert(t.rows[n] == row);
    assert(t.rows =~= s.rows.push(row)) by {
        assert forall|k: int| 0 <= k < n implies t.rows[k] == s.rows[k] by {
            assert(t.rows.subrange(0, n)[k] == s.rows[k]);
        }
    }
    assert(t.phases =~= s.phases.update(i, Phase::Active));
    assert(t == RunView {
        rows: s.rows.push(row),
        phases: s.phases.update(i, Phase::Active),
        ..s
    });
}

/// A loop begins with its first round, and its variables with their initial values. One that may
/// have no rounds is done at once, with its outputs set.
pub proof fn law_a_loop_begins_with_its_first_round(g: Graph, s: RunView, i: int, c: LoopConfig)
    requires
        run_wf(g, s),
        0 <= i < g.size(),
        g.nodes@[i].kind == NodeKind::Loop(c),
    ensures
        ({
            let t = begin(g, s, i);
            let first = initialised(s.pool, c.variables@, c.variables@.len());
            &&& same_attempts(s, t)
            &&& same_rounds_but(s, t, i)
            &&& t.rounds[i].round == 0
            &&& if c.max_iterations > 0 {
                comes_to(s, t, i, Phase::Active) && t.pool == first
            } else {
                comes_to(s, t, i, Phase::Done) && t.pool == bound(
                    first,
                    c.outputs@,
                    c.outputs@.len(),
                )
            }
        }),
{
}

/// An iteration over a list begins with its first round: it has all items of the list and has
/// collected nothing; its item is the first, its index 0. Over an empty list it is done at once,
/// with nothing collected. Over anything else the run fails over the list's variable.
pub proof fn law_an_iteration_begins_with_its_first_item(
    g: Graph,
    s: RunView,
    i: int,
    c: IterationConfig,
)
    requires
        run_wf(g, s),
        0 <= i < g.size(),
        g.nodes@[i].kind == NodeKind::Iteration(c),
    ensures
        ({
            let t = begin(g, s, i);
            let id = g.nodes@[i].id@;
            match value_in(s.pool, c.iterator@) {
                Tree::Array(items) => {
                    &&& same_attempts(s, t)
                    &&& same_rounds_but(s, t, i)
                    &&& t.rounds[i].round == 0
                    &&& t.rounds[i].items == items
                    &&& t.rounds[i].collected.len() == 0
                    &&& if items.len() > 0 {
                        &&& comes_to(s, t, i, Phase::Active)
                        &&& in_round(s.pool, t.pool, id, items[0], 0)
                    } else {
                        &&& comes_to(s, t, i, Phase::Done)
                        &&& hands_over(s.pool, t.pool, id, Seq::empty())
                    }
                },
                _ => {
                    &&& t.status is Failed
                    &&& t.failure == Some(
                        FailureView {
                            kind: NodeFailureKind::Variables,
                            message: c.iterator@,
                            output: None,
                        },
                    )
                    &&& comes_to(s, t, i, Phase::Active)
                    &&& t.rounds == s.rounds
                    &&& t.pool == s.pool
                    &&& t.rows.len() == s.rows.len()
                    &&& forall|k: int| #![trigger t.rows[k]]
                        0 <= k < s.rows.len() ==> cut_short(s.rows[k], t.rows[k])
                },
            }
        }),
{
    lemma_names(g.nodes@[i].id@);
    if let Tree::Array(items) = value_in(s.pool, c.iterator@) {
        if items.len() == 0 {
            assert(Seq::<Tree>::empty() =~= begin(g, s, i).rounds[i].collected);
        }
    }
}

/// The variables of an iteration's round: `item` and `index`; others are as they were.
pub open spec fn in_round(
    before: Map<Seq<char>, Tree>,
    after: Map<Seq<char>, Tree>,
    id: Seq<char>,
    item: Tree,
    index: nat,
) -> bool {
    &&& after.dom().contains(id.push('.') + "item"@)
    &&& after[id.push('.') + "item"@] == item
    &&& after.dom().contains(id.push('.') + "index"@)
    &&& index <= u64::MAX ==> after[id.push('.') + "index"@] == Tree::Number(
        Some(index as u64),
        decimal(index),
    )
    &&& forall|name: Seq<char>|
        name != id.push('.') + "item"@ && name != id.push('.') + "index"@
            ==> #[trigger] same_at(before, after, name)
}

/// An iteration's output is the list of what it collected; other variables are as they were.
pub open spec fn hands_over(
    before: Map<Seq<char>, Tree>,
    after: Map<Seq<char>, Tree>,
    id: Seq<char>,
    collected: Seq<Tree>,
) -> bool {
    &&& after.dom().contains(id.push('.') + "output"@)
    &&& after[id.push('.') + "output"@] == Tree::Array(collected)
    &&& forall|name: Seq<char>|
        name != id.push('.') + "output"@ ==> #[trigger] same_at(before, after, name)
}

proof fn lemma_names(id: Seq<char>)
    ensures
        crate::pool::variable(id, "item"@) == id.push('.') + "item"@,
        crate::pool::variable(id, "index"@) == id.push('.') + "index"@,
        crate::pool::variable(id, "output"@) == id.push('.') + "output"@,
        id.push('.') + "item"@ != id.push('.') + "index"@,
{
    law_a_variable_is_named_after_its_node(id, "item"@);
    law_a_variable_is_named_after_its_node(id, "index"@);
    law_a_variable_is_named_after_its_node(id, "output"@);
    reveal_strlit("item");
    reveal_strlit("index");
    assert((id.push('.') + "item"@).len() != (id.push('.') + "index"@).len());
}

// ---------------------------------------------------------------------------------------------
// A round is settled
// ---------------------------------------------------------------------------------------------

/// The members of node `i` are idle again; other nodes are where they were.
pub open spec fn members_begin_again(g: Graph, s: RunView, t: RunView, i: int) -> bool {
    t.phases.len() == s.phases.len() && forall|j: int| #![trigger t.phases[j]]
        0 <= j < s.phases.len() ==> t.phases[j] == if within(g, j, i) {
            Phase::Idle
        } else {
            s.phases[j]
        }
}

/// Settling any round of an iteration, the last or not, leaves the values of the rounds before it
/// where they were and puts its own behind them. After the last round the iteration is done and
/// hands over all values; after another it goes into the next round, with the next item, and its
/// members begin again.
pub proof fn law_each_round_collects_behind_the_others(
    g: Graph,
    s: RunView,
    i: int,
    c: IterationConfig,
)
    requires
        run_wf(g, s),
        0 <= i < g.size(),
        g.nodes@[i].kind == NodeKind::Iteration(c),
    ensures
        ({
            let t = settle(g, s, i);
            let id = g.nodes@[i].id@;
            let had = s.rounds[i];
            let has = t.rounds[i];
            let n = had.collected.len() as int;
            &&& same_attempts(s, t)
            &&& same_rounds_but(s, t, i)
            &&& has.items == had.items
            &&& has.collected.len() == n + 1
            &&& forall|k: int| #![trigger has.collected[k]]
                0 <= k < n ==> has.collected[k] == had.collected[k]
            &&& has.collected[n] == value_in(s.pool, c.collect@)
            &&& if had.round + 1 < had.items.len() {
                &&& has.round == had.round + 1
                &&& members_begin_again(g, s, t, i)
                &&& in_round(s.pool, t.pool, id, had.items[had.round as int + 1], had.round + 1)
            } else {
                &&& has.round == had.round
                &&& comes_to(s, t, i, Phase::Done)
                &&& hands_over(s.pool, t.pool, id, has.collected)
            }
        }),
{
    lemma_names(g.nodes@[i].id@);
    let t = settle(g, s, i);
}

/// All conditions hold: each one's variable has the condition's text for its value.
pub open spec fn satisfied(pool: Map<Seq<char>, Tree>, cs: Seq<Condition>) -> bool {
    forall|k: int| #![trigger cs[k]]
        0 <= k < cs.len() ==> value_in(pool, cs[k].variable@) == Tree::Text(cs[k].value@)
}

/// A loop ends with the round after which all its conditions hold, and at the latest with the last
/// round that it may have; then it is done and its outputs are set. After another round it goes
/// into the next, with its variables fed back, and its members begin again.
pub proof fn law_a_loop_goes_on_until_its_conditions_hold(
    g: Graph,
    s: RunView,
    i: int,
    c: LoopConfig,
)
    requires
        run_wf(g, s),
        0 <= i < g.size(),
        g.nodes@[i].kind == NodeKind::Loop(c),
    ensures
        ({
            let t = settle(g, s, i);
            &&& same_attempts(s, t)
            &&& same_rounds_but(s, t, i)
            &&& if satisfied(s.pool, c.until@) || s.rounds[i].round + 1 >= c.max_iterations {
                &&& comes_to(s, t, i, Phase::Done)
                &&& t.rounds[i] == s.rounds[i]
                &&& t.pool == bound(s.pool, c.outputs@, c.outputs@.len())
            } else {
                &&& members_begin_again(g, s, t, i)
                &&& t.rounds[i].round == s.rounds[i].round + 1
                &&& t.pool == fed_back(s.pool, c.variables@, c.variables@.len())
            }
        }),
{
    assert(satisfied(s.pool, c.until@) == crate::model::all_hold(s.pool, c.until@)) by {
        assert forall|k: int| #![trigger c.until@[k]]
            0 <= k < c.until@.len() implies value_in(s.pool, c.until@[k].variable@)
            == crate::pool::value_or_null(s.pool, c.until@[k].variable@) by {}
    }
}

/// Whenever a loop goes into a further round, whichever was settled, each of its variables has the
/// value that its feedback variable had when the round was over, as long as the variables' names
/// are distinct and none is fed back from another.
pub proof fn law_a_further_round_has_what_was_fed_back(
    g: Graph,
    s: RunView,
    i: int,
    c: LoopConfig,
    k: int,
)
    requires
        run_wf(g, s),
        0 <= i < g.size(),
        g.nodes@[i].kind == NodeKind::Loop(c),
        s.phases[i] is Active,
        settle(g, s, i).phases[i] is Active,
        0 <= k < c.variables@.len(),
        forall|j: int| #![trigger c.variables@[j]]
            0 <= j < c.variables@.len() && j != k ==> c.variables@[j].name@
                != c.variables@[k].name@ && c.variables@[j].name@ != c.variables@[k].feedback@,
    ensures
        value_in(settle(g, s, i).pool, c.variables@[k].name@) == value_in(
            s.pool,
            c.variables@[k].feedback@,
        ),
{
    law_a_loop_goes_on_until_its_conditions_hold(g, s, i, c);
    law_loop_variables_are_fed_back_in_turn(s.pool, c.variables@, c.variables@.len(), k);
}

/// When a loop is done, each of its outputs has the value that its source had then, as long as the
/// outputs' names are distinct and none is the source of another.
pub proof fn law_a_loop_that_is_done_has_its_outputs(
    g: Graph,
    s: RunView,
    i: int,
    c: LoopConfig,
    k: int,
)
    requires
        run_wf(g, s),
        0 <= i < g.size(),
        g.nodes@[i].kind == NodeKind::Loop(c),
        s.phases[i] is Active,
        settle(g, s, i).phases[i] is Done,
        0 <= k < c.outputs@.len(),
        forall|j: int| #![trigger c.outputs@[j]]
            0 <= j < c.outputs@.len() && j != k ==> c.outputs@[j].name@ != c.outputs@[k].name@
                && c.outputs@[j].name@ != c.outputs@[k].source@,
    ensures
        value_in(settle(g, s, i).pool, c.outputs@[k].name@) == value_in(
            s.pool,
            c.outputs@[k].source@,
        ),
{
    law_a_loop_goes_on_until_its_conditions_hold(g, s, i, c);
    assert(g.nodes@[i].parent is None);
    law_bindings_are_set_in_turn(s.pool, c.outputs@, c.outputs@.len(), k);
}

// ---------------------------------------------------------------------------------------------
// What is done stays
// ---------------------------------------------------------------------------------------------

/// A variable of the node `id`.
pub open spec fn belongs(name: Seq<char>, id: Seq<char>) -> bool {
    exists|rest: Seq<char>| name == #[trigger] (id.push('.') + rest)
}

/// A node that the run will not come back to: it is done, or what it is a member of is.
pub open spec fn behind_the_run(g: Graph, s: RunView, i: int) -> bool {
    match g.nodes@[i].parent {
        None => s.phases[i] is Done,
        Some(p) => s.phases[p as int] is Done,
    }
}

/// Each node that the variable belongs to is behind the run.
pub open spec fn set_for_good(g: Graph, s: RunView, name: Seq<char>) -> bool {
    forall|i: int| #![trigger g.nodes@[i]]
        0 <= i < g.nodes@.len() && belongs(name, g.nodes@[i].id@) ==> behind_the_run(g, s, i)
}

proof fn lemma_belongs(name: Seq<char>, id: Seq<char>)
    requires
        owned(name, id),
    ensures
        belongs(name, id),
{
    let rest = name.subrange(id.len() as int + 1, name.len() as int);
    assert forall|k: int| 0 <= k < name.len() implies name[k] == (id.push('.') + rest)[k] by {
        if k < id.len() {
            assert(name.subrange(0, id.len() as int)[k] == name[k]);
        }
    }
    assert(name =~= id.push('.') + rest);
}

/// Whatever begins or settles in a run, a node behind it stays where it is, and a variable that
/// belongs to nodes behind the run alone keeps its value.
pub proof fn law_what_is_done_stays(g: Graph, s: RunView)
    requires
        run_wf(g, s),
    ensures
        forall|i: int| #![trigger g.nodes@[i]]
            0 <= i < g.nodes@.len() && behind_the_run(g, s, i) ==> behind_the_run(
                g,
                advanced(g, s),
                i,
            ) && advanced(g, s).phases[i] == s.phases[i],
        forall|name: Seq<char>|
            set_for_good(g, s, name) ==> #[trigger] same_at(s.pool, advanced(g, s).pool, name),
    decreases outer_left(g, s), rounds_left(g, s), inner_left(g, s),
{
    lemma_step(g, s);
    if let Some(t) = step(g, s) {
        law_what_is_done_stays(g, t);
        lemma_ready_from(g, s, 0);
        lemma_over_from(g, s, 0);
        let i = match ready_from(g, s, 0) {
            Some(i) => i,
            None => over_from(g, s, 0)->0,
        };
        if ready_from(g, s, 0) is Some {
            lemma_begin_same(g, s, i);
        } else {
            lemma_settle_same(g, s, i);
        }
        assert(!behind_the_run(g, s, i));
        assert forall|k: int| #![trigger g.nodes@[k]]
            0 <= k < g.nodes@.len() && behind_the_run(g, s, k) implies behind_the_run(g, t, k)
            && t.phases[k] == s.phases[k] by {
            if let Some(p) = g.nodes@[k].parent {
                assert(g.nodes@[p as int].parent is None);
                assert(g.node(k).parent == Some(p));
            }
        }
        assert forall|name: Seq<char>| set_for_good(g, s, name) implies #[trigger] same_at(
            s.pool,
            advanced(g, s).pool,
            name,
        ) by {
            if owned(name, g.nodes@[i].id@) {
                lemma_belongs(name, g.nodes@[i].id@);
            }
            assert(same_at(s.pool, t.pool, name));
            assert(set_for_good(g, t, name));
            assert(same_at(t.pool, advanced(g, t).pool, name));
        }
    }
}

/// A resume keeps what is done: each such node outside of loops and iterations stays done, and each
/// variable that belongs to nodes behind the failed run alone, as the run's input does, keeps its
/// value.
pub proof fn law_a_resume_keeps_what_is_done(g: Graph, s: RunView)
    requires
        run_wf(g, s),
        s.status is Failed,
    ensures
        forall|i: int| #![trigger g.nodes@[i]]
            0 <= i < g.nodes@.len() && g.nodes@[i].parent is None && s.phases[i] is Done
                ==> resumed(g, s).phases[i] is Done,
        forall|name: Seq<char>|
            set_for_good(g, s, name) ==> #[trigger] same_at(s.pool, resumed(g, s).pool, name),
{
    let t = reset(g, s);
    lemma_events(g, s);
    law_what_is_done_stays(g, t);
    assert forall|i: int| #![trigger g.nodes@[i]]
        0 <= i < g.nodes@.len() && behind_the_run(g, s, i) implies behind_the_run(g, t, i) by {
        if let Some(p) = g.nodes@[i].parent {
            assert(g.nodes@[p as int].parent is None);
            assert(g.node(p as int).parent is None);
        } else {
            assert(g.node(i).parent is None);
        }
    }
    assert forall|name: Seq<char>| set_for_good(g, s, name) implies #[trigger] same_at(
        s.pool,
        resumed(g, s).pool,
        name,
    ) by {
        assert(set_for_good(g, t, name));
        assert(same_at(t.pool, advanced(g, t).pool, name));
    }
}

/// An answer at a node outside of loops and iterations is the node's output from then on, whatever
/// it sets going, and what was done before it keeps its variables.
pub proof fn law_an_answer_is_the_nodes_output(
    g: Graph,
    s: RunView,
    r: int,
    output: Seq<char>,
)
    requires
        run_wf(g, s),
        kept(g, s),
        is_running(s, r),
    ensures
        g.nodes@[s.rows[r].node].parent is None ==> value_in(
            completed(g, s, r, output).pool,
            g.nodes@[s.rows[r].node].id@.push('.') + "output"@,
        ) == Tree::Text(output) && completed(g, s, r, output).phases[s.rows[r].node] is Done,
        forall|name: Seq<char>|
            set_for_good(g, s, name) ==> #[trigger] same_at(
                s.pool,
                completed(g, s, r, output).pool,
                name,
            ),
{
    let t = answered(g, s, r, output);
    let n = s.rows[r].node;
    let id = g.nodes@[n].id@;
    let own = id.push('.') + "output"@;
    lemma_events(g, s);
    assert(run_wf(g, t));
    assert(0 <= n < g.size());
    assert(open_row_kept(g, s, r));
    lemma_names(id);
    law_what_is_done_stays(g, t);
    assert forall|i: int| #![trigger g.nodes@[i]]
        0 <= i < g.nodes@.len() && behind_the_run(g, s, i) implies behind_the_run(g, t, i) by {
        if let Some(p) = g.nodes@[i].parent {
            assert(g.nodes@[p as int].kind.composite());
        }
    }
    assert(belongs(own, id));
    assert(!behind_the_run(g, s, n)) by {
        assert(g.node(n) == g.nodes@[n]);
    }
    assert forall|name: Seq<char>| set_for_good(g, s, name) implies #[trigger] same_at(
        s.pool,
        completed(g, s, r, output).pool,
        name,
    ) by {
        assert(name != own);
        assert(set_for_good(g, t, name));
        assert(same_at(t.pool, advanced(g, t).pool, name));
    }
    if g.nodes@[n].parent is None {
        assert(set_for_good(g, t, own)) by {
            assert forall|i: int| #![trigger g.nodes@[i]]
                0 <= i < g.nodes@.len() && belongs(own, g.nodes@[i].id@) implies behind_the_run(
                g,
                t,
                i,
            ) by {
                let other = g.nodes@[i].id@;
                crate::pool::lemma_variable_owned(id, "output"@);
                let rest = choose|rest: Seq<char>| own == #[trigger] (other.push('.') + rest);
                assert(own.subrange(0, other.len() as int) =~= other);
                assert(owned(own, other));
                assert(crate::graph::dotless(id) && crate::graph::dotless(other));
                lemma_owner(own, id, other);
                if i < n {
                    assert(g.nodes@[i].id@ != g.nodes@[n].id@);
                } else if n < i {
                    assert(g.nodes@[n].id@ != g.nodes@[i].id@);
                }
            }
        }
        assert(same_at(t.pool, advanced(g, t).pool, own));
        assert(behind_the_run(g, t, n));
    }
}

} // verus!
