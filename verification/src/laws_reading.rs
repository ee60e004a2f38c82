//! What is read off a run, and what it needs next.

use crate::attempts::NodeRun;
use crate::attempts::RowView;
use crate::attempts::Stage;
use crate::attempts::StageView;
use crate::attempts::rows_view;
use crate::drive::answered_each;
use crate::drive::next_due;
use crate::drive::round_answer;
use crate::drive::running_from;
use crate::drive::running_rows;
use crate::drive::worker_row;
use crate::failure::NodeFailure;
use crate::failure::text_view;
use crate::graph::Graph;
use crate::json::Json;
use crate::json::Tree;
use crate::json::fields_of;
use crate::json::trees_of;
use crate::model::RunView;
use crate::model::completed;
use crate::model::run_wf;
use crate::pool::Pool;
use crate::run::live_rows;
use crate::run::named_from;
use crate::text::decimal;
use vstd::prelude::*;

verus! {

/// The node of an id is the one that has it, and there is none where none has it.
pub proof fn law_a_node_is_found_by_its_id(g: Graph, id: Seq<char>, i: int)
    requires
        g.wf(),
    ensures
        named_from(g, id, 0) == Some(i) <==> 0 <= i < g.nodes@.len() && g.nodes@[i].id@ == id,
{
    lemma_named_from(g, id, 0);
    if 0 <= i < g.nodes@.len() && g.nodes@[i].id@ == id {
        if let Some(k) = named_from(g, id, 0) {
            if k < i {
                assert(g.nodes@[k].id@ != g.nodes@[i].id@);
            } else if i < k {
                assert(g.nodes@[i].id@ != g.nodes@[k].id@);
            }
        }
    }
}

proof fn lemma_named_from(g: Graph, id: Seq<char>, i: int)
    requires
        0 <= i,
    ensures
        match named_from(g, id, i) {
            Some(k) => i <= k < g.nodes@.len() && g.nodes@[k].id@ == id,
            None => forall|k: int| #![trigger g.nodes@[k]]
                i <= k < g.nodes@.len() ==> g.nodes@[k].id@ != id,
        },
    decreases g.size() - i,
{
    if i < g.size() && g.node(i).id@ != id {
        lemma_named_from(g, id, i + 1);
    }
}

/// Whether attempt `q` is at the node of the given id.
pub open spec fn attempt_at(g: Graph, s: RunView, id: Seq<char>, q: int) -> bool {
    g.nodes@[s.rows[q].node].id@ == id
}

/// The numbers of a list go up.
pub open spec fn going_up(list: Seq<int>) -> bool {
    forall|j: int, k: int| #![trigger list[j], list[k]] 0 <= j < k < list.len() ==> list[j] < list[k]
}

proof fn lemma_pushed(list: Seq<int>, x: int)
    requires
        going_up(list),
        forall|k: int| #![trigger list[k]] 0 <= k < list.len() ==> list[k] < x,
    ensures
        going_up(list.push(x)),
        forall|q: int| #[trigger] list.push(x).contains(q) <==> list.contains(q) || q == x,
{
    let longer = list.push(x);
    assert forall|q: int| #[trigger] longer.contains(q) <==> list.contains(q) || q == x by {
        if list.contains(q) {
            let k = choose|k: int| 0 <= k < list.len() && list[k] == q;
            assert(longer[k] == q);
        }
        if q == x {
            assert(longer[list.len() as int] == q);
        }
    }
}

/// The attempts at a node that still count are listed, oldest first: these, and no others.
pub proof fn law_attempts_that_count_are_listed(g: Graph, s: RunView, id: Seq<char>, n: nat)
    requires
        run_wf(g, s),
        n <= s.rows.len(),
    ensures
        going_up(live_rows(g, s, id, n)),
        forall|q: int|
            #[trigger] live_rows(g, s, id, n).contains(q) <==> 0 <= q < n && attempt_at(g, s, id, q)
                && s.rows[q].live,
    decreases n,
{
    if n > 0 {
        let m = (n - 1) as nat;
        law_attempts_that_count_are_listed(g, s, id, m);
        let front = live_rows(g, s, id, m);
        let node = s.rows[n - 1].node;
        assert(0 <= node < g.size());
        law_a_node_is_found_by_its_id(g, id, node);
        assert forall|k: int| #![trigger front[k]] 0 <= k < front.len() implies front[k] < n - 1 by {
            assert(front.contains(front[k]));
        }
        lemma_pushed(front, n - 1);
        assert forall|q: int| #[trigger] live_rows(g, s, id, n).contains(q) <==> 0 <= q < n && attempt_at(
            g,
            s,
            id,
            q,
        ) && s.rows[q].live by {
            assert(front.contains(q) <==> 0 <= q < m && attempt_at(g, s, id, q) && s.rows[q].live);
            assert(front.push(n - 1).contains(q) <==> front.contains(q) || q == n - 1);
        }
    }
}

/// The attempts at a node that are running are listed, oldest first: these, and no others.
pub proof fn law_running_attempts_are_listed(g: Graph, s: RunView, id: Seq<char>, n: nat)
    requires
        run_wf(g, s),
        n <= s.rows.len(),
    ensures
        going_up(running_rows(g, s, id, n)),
        forall|q: int|
            #[trigger] running_rows(g, s, id, n).contains(q) <==> 0 <= q < n && attempt_at(
                g,
                s,
                id,
                q,
            ) && s.rows[q].stage is Running,
    decreases n,
{
    if n > 0 {
        let m = (n - 1) as nat;
        law_running_attempts_are_listed(g, s, id, m);
        let front = running_rows(g, s, id, m);
        let node = s.rows[n - 1].node;
        assert(0 <= node < g.size());
        law_a_node_is_found_by_its_id(g, id, node);
        assert forall|k: int| #![trigger front[k]] 0 <= k < front.len() implies front[k] < n - 1 by {
            assert(front.contains(front[k]));
        }
        lemma_pushed(front, n - 1);
        assert forall|q: int| #[trigger] running_rows(g, s, id, n).contains(q) <==> 0 <= q < n && attempt_at(
            g,
            s,
            id,
            q,
        ) && s.rows[q].stage is Running by {
            assert(front.contains(q) <==> 0 <= q < m && attempt_at(g, s, id, q) && s.rows[q].stage is Running);
            assert(front.push(n - 1).contains(q) <==> front.contains(q) || q == n - 1);
        }
    }
}

/// An agent is made to answer with the number of its attempt's round, or 0 outside of rounds.
pub proof fn law_an_answer_names_its_round(row: RowView)
    ensures
        round_answer(row) == seq!['o', 'u', 't', '-'] + decimal(
            if row.iteration is Some {
                row.iteration->0
            } else {
                0
            },
        ),
{
    reveal_strlit("out-");
    assert("out-"@ =~= seq!['o', 'u', 't', '-']);
}

/// The listed attempts are answered one after the other: each that still runs when its turn comes
/// with its round's answer, and the others not at all.
pub proof fn law_listed_attempts_are_answered_in_turn(
    g: Graph,
    s: RunView,
    rows: Seq<int>,
    n: nat,
)
    requires
        n < rows.len(),
    ensures
        answered_each(g, s, rows, 0) == s,
        ({
            let t = answered_each(g, s, rows, n);
            let r = rows[n as int];
            answered_each(g, s, rows, n + 1) == if t.status is Running && 0 <= r < t.rows.len()
                && t.rows[r].stage is Running {
                completed(g, t, r, round_answer(t.rows[r]))
            } else {
                t
            }
        }),
{
}

/// The oldest attempt that runs is asked first; where none runs, none is asked.
pub proof fn law_the_oldest_running_attempt_is_asked(s: RunView, r: int)
    ensures
        running_from(s, 0) == Some(r) <==> 0 <= r < s.rows.len() && s.rows[r].stage is Running
            && forall|q: int| #![trigger s.rows[q]] 0 <= q < r ==> s.rows[q].stage !is Running,
{
    lemma_running_from(s, 0);
    if 0 <= r < s.rows.len() && s.rows[r].stage is Running {
        if let Some(q) = running_from(s, 0) {
            assert(s.rows[q].stage is Running);
        }
    }
}

proof fn lemma_running_from(s: RunView, i: int)
    requires
        0 <= i,
    ensures
        match running_from(s, i) {
            Some(r) => i <= r < s.rows.len() && s.rows[r].stage is Running && forall|q: int|
                #![trigger s.rows[q]]
                i <= q < r ==> s.rows[q].stage !is Running,
            None => forall|q: int| #![trigger s.rows[q]]
                i <= q < s.rows.len() ==> s.rows[q].stage !is Running,
        },
    decreases s.rows.len() - i,
{
    if i < s.rows.len() && s.rows[i].stage !is Running {
        lemma_running_from(s, i + 1);
    }
}

/// Of the attempts that wait, the one that is due first is woken first, at its time; of two that
/// are due at once, the older.
pub proof fn law_the_first_due_attempt_is_woken(s: RunView, r: int, at: u64)
    ensures
        next_due(s, s.rows.len()) == Some((r, at)) <==> 0 <= r < s.rows.len() && s.rows[r].stage
            == StageView::Waiting(at) && forall|q: int| #![trigger s.rows[q]]
            0 <= q < s.rows.len() ==> (s.rows[q].stage matches StageView::Waiting(then) ==> at < then
                || at == then && r <= q),
{
    lemma_next_due(s, s.rows.len());
    if 0 <= r < s.rows.len() && s.rows[r].stage == StageView::Waiting(at) {
        if let Some((q, then)) = next_due(s, s.rows.len()) {
            assert(s.rows[q].stage == StageView::Waiting(then));
        }
    }
}

proof fn lemma_next_due(s: RunView, n: nat)
    requires
        n <= s.rows.len(),
    ensures
        match next_due(s, n) {
            Some((r, at)) => 0 <= r < n && s.rows[r].stage == StageView::Waiting(at) && forall|q: int|
                #![trigger s.rows[q]]
                0 <= q < n ==> (s.rows[q].stage matches StageView::Waiting(then) ==> at < then || at
                    == then && r <= q),
            None => forall|q: int| #![trigger s.rows[q]]
                0 <= q < n ==> s.rows[q].stage !is Waiting,
        },
    decreases n,
{
    if n > 0 {
        lemma_next_due(s, (n - 1) as nat);
    }
}

/// What is recorded of `worker` is recorded of the one attempt at it that still counts, where it
/// succeeded.
pub proof fn law_the_workers_attempt_is_the_one_that_counts(g: Graph, s: RunView, i: int)
    requires
        run_wf(g, s),
    ensures
        worker_row(g, s) == Some(i) <==> {
            &&& 0 <= i < s.rows.len()
            &&& attempt_at(g, s, "worker"@, i)
            &&& s.rows[i].live
            &&& s.rows[i].stage is Succeeded
            &&& forall|q: int| #![trigger s.rows[q]]
                0 <= q < s.rows.len() && q != i && s.rows[q].live ==> !attempt_at(
                    g,
                    s,
                    "worker"@,
                    q,
                )
        },
{
    let list = live_rows(g, s, "worker"@, s.rows.len());
    law_attempts_that_count_are_listed(g, s, "worker"@, s.rows.len());
    if worker_row(g, s) == Some(i) {
        assert(list.contains(list[0]));
        assert forall|q: int| #![trigger s.rows[q]]
            0 <= q < s.rows.len() && q != i && s.rows[q].live implies !attempt_at(
            g,
            s,
            "worker"@,
            q,
        ) by {
            if attempt_at(g, s, "worker"@, q) {
                assert(list.contains(q));
            }
        }
    }
    if 0 <= i < s.rows.len() && attempt_at(g, s, "worker"@, i) && s.rows[i].live
        && s.rows[i].stage is Succeeded && forall|q: int| #![trigger s.rows[q]]
        0 <= q < s.rows.len() && q != i && s.rows[q].live ==> !attempt_at(g, s, "worker"@, q) {
        assert(list.contains(i));
        if list.len() > 1 {
            assert(list[0] < list[1]);
            assert(list.contains(list[0]));
            assert(list.contains(list[1]));
            let q = if list[0] == i {
                list[1]
            } else {
                list[0]
            };
            assert(s.rows[q].live && attempt_at(g, s, "worker"@, q));
            assert(false);
        }
        assert(list[0] == i) by {
            assert(list.contains(list[0]));
            let q = list[0];
            assert(s.rows[q].live && attempt_at(g, s, "worker"@, q));
        }
    }
}

// ---------------------------------------------------------------------------------------------
// Documents as plain values
// ---------------------------------------------------------------------------------------------

/// A list says what its items say, in order.
pub proof fn law_a_list_says_what_its_items_say(items: Seq<Json>, i: int)
    requires
        0 <= i < items.len(),
    ensures
        trees_of(items).len() == items.len(),
        trees_of(items)[i] == items[i]@,
{
}

/// An object has the fields that are written down, and of two with one name the later one.
pub proof fn law_the_later_field_counts(fields: Seq<(String, Json)>, key: Seq<char>, i: int)
    ensures
        0 <= i < fields.len() && fields[i].0@ == key && (forall|k: int| #![trigger fields[k]]
            i < k < fields.len() ==> fields[k].0@ != key) ==> fields_of(fields).dom().contains(key)
            && fields_of(fields)[key] == fields[i].1@,
        (forall|k: int| #![trigger fields[k]] 0 <= k < fields.len() ==> fields[k].0@ != key)
            ==> !fields_of(fields).dom().contains(key),
    decreases fields.len(),
{
    if fields.len() > 0 {
        let shorter = fields.drop_last();
        law_the_later_field_counts(shorter, key, i);
        assert forall|k: int| 0 <= k < shorter.len() implies #[trigger] shorter[k] == fields[k] by {}
        if 0 <= i < fields.len() - 1 && (forall|k: int| #![trigger fields[k]]
            i < k < fields.len() ==> fields[k].0@ != key) {
            assert(fields[fields.len() - 1].0@ != key);
        }
        if forall|k: int| #![trigger fields[k]] 0 <= k < fields.len() ==> fields[k].0@ != key {
            assert(fields[fields.len() - 1].0@ != key);
        }
    }
}

// ---------------------------------------------------------------------------------------------
// Nothing is hidden
// ---------------------------------------------------------------------------------------------

/// An optional text is there, with its characters, or is not.
pub proof fn law_an_optional_text_is_seen_whole(text: Option<String>)
    ensures
        text is Some ==> text_view(text) == Some(text->0@),
        text is None ==> text_view(text) is None,
{
}

/// A failure is seen with its kind, its message and its reply.
pub proof fn law_a_failure_is_seen_whole(f: NodeFailure)
    ensures
        f@.kind == f.kind,
        f@.message == f.message@,
        f.output is Some ==> f@.output == Some(f.output->0@),
        f.output is None ==> f@.output is None,
{
}

/// A stage is seen with what it holds.
pub proof fn law_a_stage_is_seen_whole(stage: Stage)
    ensures
        match stage {
            Stage::Waiting(at) => stage@ == StageView::Waiting(at),
            Stage::Running => stage@ == StageView::Running,
            Stage::Succeeded(output) => stage@ == StageView::Succeeded(output@),
            Stage::Failed(f) => stage@ == StageView::Failed(f@),
            Stage::Abandoned(f) => stage@ == StageView::Abandoned(f@),
        },
{
}

/// The attempts of a list are seen one by one, in order, with all that they hold.
pub proof fn law_attempts_are_seen_whole(rows: Seq<NodeRun>, i: int)
    requires
        0 <= i < rows.len(),
    ensures
        rows_view(rows).len() == rows.len(),
        ({
            let seen = rows_view(rows)[i];
            let row = rows[i];
            &&& seen.node == row.node
            &&& row.iteration is Some ==> seen.iteration == Some(row.iteration->0 as nat)
            &&& row.iteration is None ==> seen.iteration is None
            &&& seen.attempt == row.attempt
            &&& seen.retry == row.retry
            &&& seen.stage == row.stage@
            &&& seen.live == row.live
            &&& row.prompt is Some ==> seen.prompt == Some(row.prompt->0@)
            &&& row.prompt is None ==> seen.prompt is None
            &&& row.injected_failure_context is Some ==> seen.injected == Some(
                row.injected_failure_context->0@,
            )
            &&& row.injected_failure_context is None ==> seen.injected is None
            &&& row.session_id is Some ==> seen.session == Some(row.session_id->0 as nat)
            &&& row.session_id is None ==> seen.session is None
        }),
{
}

/// A document is seen with what it holds.
pub proof fn law_a_document_is_seen_whole(j: Json)
    ensures
        match j {
            Json::Null => j@ == Tree::Null,
            Json::Bool(b) => j@ == Tree::Bool(b),
            Json::Number(n, text) => j@ == Tree::Number(n, text@),
            Json::Text(s) => j@ == Tree::Text(s@),
            Json::Array(items) => j@ == Tree::Array(trees_of(items@)),
            Json::Object(fields) => j@ == Tree::Object(fields_of(fields@)),
        },
{
}

/// The variables of a pool are the fields of its entries.
pub proof fn law_a_pool_is_seen_whole(pool: Pool, name: Seq<char>, i: int)
    requires
        0 <= i < pool.entries@.len(),
        pool.entries@[i].0@ == name,
        forall|k: int| #![trigger pool.entries@[k]]
            i < k < pool.entries@.len() ==> pool.entries@[k].0@ != name,
    ensures
        pool@.dom().contains(name),
        pool@[name] == pool.entries@[i].1@,
{
    law_the_later_field_counts(pool.entries@, name, i);
}

} // verus!
