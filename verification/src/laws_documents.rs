//! Which documents describe a graph, and which graph they describe.

use crate::document::DocumentError;
use crate::document::dotted;
use crate::document::graph_error;
use crate::document::graph_reads;
use crate::document::index_from;
use crate::document::kind_error;
use crate::document::kind_reads;
use crate::document::node_error;
use crate::document::node_reads;
use crate::document::nodes_error;
use crate::graph::Binding;
use crate::graph::Graph;
use crate::graph::NodeKind;
use crate::graph::RetryPolicy;
use crate::json::Tree;
use crate::json::fields_map;
use crate::laws_text::law_a_variable_is_named_after_its_node;
use crate::samples::lemma_names;
use crate::samples::obj;
use crate::samples::single_agent_document;
use vstd::prelude::*;

verus! {

// ---------------------------------------------------------------------------------------------
// Fields
// ---------------------------------------------------------------------------------------------

/// The object has the field.
pub open spec fn present(t: Tree, key: Seq<char>) -> bool {
    match t {
        Tree::Object(m) => m.dom().contains(key),
        _ => false,
    }
}

/// The value of an object's field.
pub open spec fn val(t: Tree, key: Seq<char>) -> Tree {
    t->Object_0[key]
}

/// The field has the value.
pub open spec fn says(t: Tree, key: Seq<char>, v: Tree) -> bool {
    present(t, key) && val(t, key) == v
}

/// The field is a text.
pub open spec fn texty(t: Tree, key: Seq<char>) -> bool {
    present(t, key) && val(t, key) is Text
}

/// The field is a list.
pub open spec fn listy(t: Tree, key: Seq<char>) -> bool {
    present(t, key) && val(t, key) is Array
}

/// The items of a list field.
pub open spec fn items(t: Tree, key: Seq<char>) -> Seq<Tree> {
    val(t, key)->Array_0
}

/// The field is a whole number.
pub open spec fn whole(t: Tree, key: Seq<char>) -> bool {
    present(t, key) && match val(t, key) {
        Tree::Number(n, _) => n is Some,
        _ => false,
    }
}

/// The names of a path, with dots between them.
pub open spec fn dots(names: Seq<Tree>) -> Seq<char>
    decreases names.len(),
{
    if names.len() <= 1 {
        names[0]->Text_0
    } else {
        dots(names.drop_last()).push('.') + names.last()->Text_0
    }
}

/// A path: one name or more.
pub open spec fn names(list: Seq<Tree>) -> bool {
    list.len() > 0 && forall|k: int| #![trigger list[k]] 0 <= k < list.len() ==> list[k] is Text
}

/// The field is a path.
pub open spec fn pathy(t: Tree, key: Seq<char>) -> bool {
    listy(t, key) && names(items(t, key))
}

/// A path of names selects the variable of those names with dots between them; nothing else is a
/// path.
pub proof fn law_a_path_selects_a_variable(list: Seq<Tree>)
    ensures
        dotted(list, list.len() as int) is Some <==> names(list),
        names(list) ==> dotted(list, list.len() as int) == Some(dots(list)),
{
    lemma_dotted(list, list.len() as int);
    assert(list.subrange(0, list.len() as int) =~= list);
}

proof fn lemma_dotted(list: Seq<Tree>, n: int)
    requires
        0 <= n <= list.len(),
    ensures
        dotted(list, n) is Some <==> names(list.subrange(0, n)),
        names(list.subrange(0, n)) ==> dotted(list, n) == Some(dots(list.subrange(0, n))),
    decreases n,
{
    reveal_strlit(".");
    if n > 0 {
        lemma_dotted(list, n - 1);
        let all = list.subrange(0, n);
        let front = list.subrange(0, n - 1);
        assert(all.drop_last() =~= front);
        assert(all[n - 1] == list[n - 1]);
        if n > 1 {
            if names(all) {
                assert forall|k: int| #![trigger front[k]] 0 <= k < front.len() implies front[k] is Text by {
                    assert(all[k] == front[k]);
                }
            }
            if names(front) && list[n - 1] is Text {
                assert forall|k: int| #![trigger all[k]] 0 <= k < all.len() implies all[k] is Text by {
                    if k < n - 1 {
                        assert(all[k] == front[k]);
                    }
                }
                let s = list[n - 1]->Text_0;
                assert(dots(front) + "."@ + s =~= dots(front).push('.') + s);
            }
        }
    }
}

// ---------------------------------------------------------------------------------------------
// Which documents describe a graph
// ---------------------------------------------------------------------------------------------

/// A variable's name, and a path to its value.
pub open spec fn sound_binding(t: Tree) -> bool {
    texty(t, "name"@) && pathy(t, "variableSelector"@)
}

/// All of a list are sound bindings.
pub open spec fn sound_bindings(list: Seq<Tree>) -> bool {
    forall|k: int| #![trigger list[k]] 0 <= k < list.len() ==> sound_binding(list[k])
}

/// A loop variable: its name, a constant to begin with, and a path to what is fed back.
pub open spec fn sound_variable(t: Tree) -> bool {
    &&& texty(t, "name"@)
    &&& present(t, "initial"@)
    &&& says(val(t, "initial"@), "kind"@, Tree::Text("constant"@))
    &&& present(val(t, "initial"@), "value"@)
    &&& pathy(t, "feedback"@)
}

/// A condition: a path to a variable, and the text that it is to equal.
pub open spec fn sound_condition(t: Tree) -> bool {
    &&& pathy(t, "variableSelector"@)
    &&& says(t, "operator"@, Tree::Text("equals"@))
    &&& texty(t, "value"@)
}

/// A loop: how many rounds it may have, its variables, the conditions that all are to hold, and its
/// outputs.
pub open spec fn sound_loop(t: Tree) -> bool {
    &&& whole(t, "maxIterations"@)
    &&& listy(t, "variables"@)
    &&& forall|k: int| #![trigger items(t, "variables"@)[k]]
        0 <= k < items(t, "variables"@).len() ==> sound_variable(items(t, "variables"@)[k])
    &&& present(t, "until"@)
    &&& says(val(t, "until"@), "logic"@, Tree::Text("and"@))
    &&& listy(val(t, "until"@), "conditions"@)
    &&& forall|k: int| #![trigger items(val(t, "until"@), "conditions"@)[k]]
        0 <= k < items(val(t, "until"@), "conditions"@).len() ==> sound_condition(
            items(val(t, "until"@), "conditions"@)[k],
        )
    &&& listy(t, "outputs"@)
    &&& sound_bindings(items(t, "outputs"@))
}

/// An iteration: a path to its list, one to what each round leaves, and that it fails with a round.
pub open spec fn sound_iteration(t: Tree) -> bool {
    &&& pathy(t, "iteratorSelector"@)
    &&& pathy(t, "collectSelector"@)
    &&& says(t, "errorStrategy"@, Tree::Text("fail"@))
}

/// An agent: its prompt, and its retry policy or none.
pub open spec fn sound_agent(t: Tree) -> bool {
    &&& texty(t, "prompt"@)
    &&& present(t, "retry"@) ==> {
        let r = val(t, "retry"@);
        &&& present(r, "enabled"@) && val(r, "enabled"@) is Bool
        &&& whole(r, "maxRetries"@)
        &&& whole(r, "initialDelaySeconds"@)
    }
}

/// What a node of one of the five kinds says of itself.
pub open spec fn sound_data(t: Tree) -> bool {
    ||| says(t, "kind"@, Tree::Text("start"@))
    ||| says(t, "kind"@, Tree::Text("agent"@)) && present(t, "agentConfig"@) && sound_agent(
        val(t, "agentConfig"@),
    )
    ||| says(t, "kind"@, Tree::Text("loop"@)) && present(t, "loopConfig"@) && sound_loop(
        val(t, "loopConfig"@),
    )
    ||| says(t, "kind"@, Tree::Text("iteration"@)) && present(t, "iterationConfig"@)
        && sound_iteration(val(t, "iterationConfig"@))
    ||| says(t, "kind"@, Tree::Text("output"@)) && (present(t, "outputs"@) ==> listy(t, "outputs"@)
        && sound_bindings(items(t, "outputs"@)))
}

/// A node: its id, the id of what it is a member of or none, and what it says of itself.
pub open spec fn sound_node(t: Tree) -> bool {
    &&& texty(t, "id"@)
    &&& present(t, "parentId"@) ==> texty(t, "parentId"@)
    &&& present(t, "data"@)
    &&& sound_data(val(t, "data"@))
}

/// Some node of the list has the id.
pub open spec fn known(ts: Seq<Tree>, id: Tree) -> bool {
    exists|k: int| 0 <= k < ts.len() && #[trigger] says(ts[k], "id"@, id)
}

/// The node is a loop or an iteration.
pub open spec fn holds_members(t: Tree) -> bool {
    says(val(t, "data"@), "kind"@, Tree::Text("loop"@)) || says(
        val(t, "data"@),
        "kind"@,
        Tree::Text("iteration"@),
    )
}

/// A document that describes a graph: sound nodes with ids that are distinct and without dots,
/// edges between them, and members that are neither loops nor iterations in loops or iterations
/// that are no members.
pub open spec fn sound(t: Tree) -> bool {
    let ts = items(t, "nodes"@);
    let es = items(t, "edges"@);
    &&& listy(t, "nodes"@) && listy(t, "edges"@)
    &&& forall|k: int| #![trigger ts[k]] 0 <= k < ts.len() ==> sound_node(ts[k])
    &&& forall|k: int| #![trigger es[k]]
        0 <= k < es.len() ==> texty(es[k], "source"@) && texty(es[k], "target"@)
    &&& forall|i: int, j: int| #![trigger ts[i], ts[j]]
        0 <= i < j < ts.len() ==> val(ts[i], "id"@) != val(ts[j], "id"@)
    &&& forall|k: int| #![trigger ts[k]]
        0 <= k < ts.len() ==> !val(ts[k], "id"@)->Text_0.contains('.')
    &&& forall|k: int| #![trigger ts[k]]
        0 <= k < ts.len() && present(ts[k], "parentId"@) ==> known(ts, val(ts[k], "parentId"@))
    &&& forall|k: int| #![trigger es[k]]
        0 <= k < es.len() ==> known(ts, val(es[k], "source"@)) && known(ts, val(es[k], "target"@))
    &&& forall|i: int, j: int| #![trigger ts[i], ts[j]]
        0 <= i < ts.len() && 0 <= j < ts.len() && present(ts[i], "parentId"@) && val(ts[j], "id"@)
            == val(ts[i], "parentId"@) ==> holds_members(ts[j]) && !present(ts[j], "parentId"@)
            && !holds_members(ts[i])
}

proof fn lemma_kinds()
    ensures
        "start"@ != "agent"@,
        "start"@ != "loop"@,
        "start"@ != "iteration"@,
        "start"@ != "output"@,
        "agent"@ != "loop"@,
        "agent"@ != "iteration"@,
        "agent"@ != "output"@,
        "loop"@ != "iteration"@,
        "loop"@ != "output"@,
        "iteration"@ != "output"@,
{
    reveal_strlit("start");
    assert("start"@.len() == 5);
    reveal_strlit("agent");
    assert("agent"@.len() == 5);
    reveal_strlit("loop");
    assert("loop"@.len() == 4);
    reveal_strlit("iteration");
    assert("iteration"@.len() == 9);
    reveal_strlit("output");
    assert("output"@.len() == 6);
    assert("start"@[0] != "agent"@[0]);
}

proof fn lemma_path(t: Tree, key: Seq<char>)
    ensures
        crate::document::selector_at(t, key) is Some <==> pathy(t, key),
        pathy(t, key) ==> crate::document::selector_at(t, key) == Some(dots(items(t, key))),
{
    if listy(t, key) {
        law_a_path_selects_a_variable(items(t, key));
    }
}

proof fn lemma_bindings(list: Seq<Tree>)
    ensures
        crate::document::bindings_ok(list) <==> sound_bindings(list),
{
    assert forall|k: int| #![trigger list[k]] 0 <= k < list.len() implies sound_binding(list[k])
        == crate::document::binding_ok(list[k]) by {
        lemma_path(list[k], "variableSelector"@);
    }
    if crate::document::bindings_ok(list) {
        assert(sound_bindings(list));
    }
    if sound_bindings(list) {
        assert(crate::document::bindings_ok(list));
    }
}

proof fn lemma_loop(t: Tree)
    ensures
        crate::document::loop_ok(t) && crate::document::loop_known(t) <==> sound_loop(t),
{
    if listy(t, "variables"@) {
        let vs = items(t, "variables"@);
        assert forall|k: int| #![trigger vs[k]] 0 <= k < vs.len() implies sound_variable(vs[k]) == (
        crate::document::loop_variable_ok(vs[k]) && crate::document::loop_variable_known(vs[k])) by {
            lemma_path(vs[k], "feedback"@);
        }
        assert((forall|k: int| #![trigger vs[k]] 0 <= k < vs.len() ==> sound_variable(vs[k])) <==> (
        crate::document::loop_variables_ok(vs) && crate::document::loop_variables_known(vs)));
    }
    if present(t, "until"@) && listy(val(t, "until"@), "conditions"@) {
        let cs = items(val(t, "until"@), "conditions"@);
        assert forall|k: int| #![trigger cs[k]] 0 <= k < cs.len() implies sound_condition(cs[k]) == (
        crate::document::condition_ok(cs[k]) && crate::document::condition_known(cs[k])) by {
            lemma_path(cs[k], "variableSelector"@);
        }
        assert((forall|k: int| #![trigger cs[k]] 0 <= k < cs.len() ==> sound_condition(cs[k])) <==> (
        crate::document::conditions_ok(cs) && crate::document::conditions_known(cs)));
    }
    if listy(t, "outputs"@) {
        lemma_bindings(items(t, "outputs"@));
    }
}

proof fn lemma_data(t: Tree, default: RetryPolicy)
    ensures
        kind_error(t, default) is None <==> sound_data(t),
{
    lemma_kinds();
    if present(t, "loopConfig"@) {
        lemma_loop(val(t, "loopConfig"@));
    }
    if present(t, "iterationConfig"@) {
        lemma_path(val(t, "iterationConfig"@), "iteratorSelector"@);
        lemma_path(val(t, "iterationConfig"@), "collectSelector"@);
    }
    if listy(t, "outputs"@) {
        lemma_bindings(items(t, "outputs"@));
    }
}

proof fn lemma_node(t: Tree, default: RetryPolicy)
    ensures
        node_error(t, default) is None <==> sound_node(t),
        node_error(t, default) matches Some(e) ==> e is Malformed || e is Unsupported,
{
    if present(t, "data"@) {
        lemma_data(val(t, "data"@), default);
    }
}

proof fn lemma_nodes(ts: Seq<Tree>, default: RetryPolicy, n: int)
    requires
        0 <= n <= ts.len(),
    ensures
        nodes_error(ts, default, n) is None <==> forall|k: int| #![trigger ts[k]]
            0 <= k < n ==> sound_node(ts[k]),
        nodes_error(ts, default, n) matches Some(e) ==> e is Malformed || e is Unsupported,
    decreases n,
{
    if n > 0 {
        lemma_nodes(ts, default, n - 1);
        lemma_node(ts[n - 1], default);
        if forall|k: int| #![trigger ts[k]] 0 <= k < n ==> sound_node(ts[k]) {
            assert(sound_node(ts[n - 1]));
        }
    }
}

proof fn lemma_index(ts: Seq<Tree>, id: Seq<char>, i: int)
    requires
        0 <= i <= ts.len(),
    ensures
        match index_from(ts, id, i) {
            Some(k) => i <= k < ts.len() && crate::document::id_of(ts[k]) == id,
            None => forall|k: int| #![trigger ts[k]]
                i <= k < ts.len() ==> crate::document::id_of(ts[k]) != id,
        },
    decreases ts.len() - i,
{
    if i < ts.len() && crate::document::id_of(ts[i]) != id {
        lemma_index(ts, id, i + 1);
    }
}

/// The nodes and the edges of a list are sound, each by itself.
pub open spec fn sound_parts(t: Tree) -> bool {
    let ts = items(t, "nodes"@);
    let es = items(t, "edges"@);
    &&& listy(t, "nodes"@) && listy(t, "edges"@)
    &&& forall|k: int| #![trigger ts[k]] 0 <= k < ts.len() ==> sound_node(ts[k])
    &&& forall|k: int| #![trigger es[k]]
        0 <= k < es.len() ==> texty(es[k], "source"@) && texty(es[k], "target"@)
}

proof fn lemma_parts(t: Tree, default: RetryPolicy)
    requires
        sound_parts(t),
    ensures
        ({
            let ts = items(t, "nodes"@);
            let es = items(t, "edges"@);
            &&& nodes_error(ts, default, ts.len() as int) is None
            &&& crate::document::edges_ok(es)
            &&& forall|k: int| #![trigger ts[k]]
                0 <= k < ts.len() ==> val(ts[k], "id"@) == Tree::Text(crate::document::id_of(ts[k]))
            &&& forall|k: int| #![trigger ts[k]]
                0 <= k < ts.len() ==> (present(ts[k], "parentId"@) <==> crate::document::parent_of(
                    ts[k],
                ) is Some)
            &&& forall|k: int| #![trigger ts[k]]
                0 <= k < ts.len() && present(ts[k], "parentId"@) ==> val(ts[k], "parentId"@)
                    == Tree::Text(crate::document::parent_of(ts[k])->0)
            &&& forall|k: int| #![trigger ts[k]]
                0 <= k < ts.len() ==> holds_members(ts[k]) == crate::document::composite_node(ts[k])
            &&& forall|id: Seq<char>|
                #[trigger] known(ts, Tree::Text(id)) <==> index_from(ts, id, 0) is Some
        }),
{
    let ts = items(t, "nodes"@);
    let es = items(t, "edges"@);
    lemma_nodes(ts, default, ts.len() as int);
    lemma_kinds();
    assert forall|k: int| #![trigger ts[k]] 0 <= k < ts.len() implies holds_members(ts[k])
        == crate::document::composite_node(ts[k]) by {
        assert(sound_node(ts[k]));
    }
    assert forall|id: Seq<char>| #[trigger] known(ts, Tree::Text(id)) <==> index_from(
        ts,
        id,
        0,
    ) is Some by {
        lemma_index(ts, id, 0);
        if let Some(k) = index_from(ts, id, 0) {
            assert(sound_node(ts[k]));
            assert(says(ts[k], "id"@, Tree::Text(id)));
        } else if known(ts, Tree::Text(id)) {
            let k = choose|k: int|
                0 <= k < ts.len() && #[trigger] says(ts[k], "id"@, Tree::Text(id));
            assert(crate::document::id_of(ts[k]) == id);
        }
    }
}

/// Two nodes have one id.
pub open spec fn ids_clash(ts: Seq<Tree>) -> bool {
    exists|i: int, j: int| #![trigger ts[i], ts[j]]
        0 <= i < j < ts.len() && val(ts[i], "id"@) == val(ts[j], "id"@)
}

/// An id holds a dot.
pub open spec fn id_dotted(ts: Seq<Tree>) -> bool {
    exists|k: int| #![trigger ts[k]]
        0 <= k < ts.len() && val(ts[k], "id"@)->Text_0.contains('.')
}

/// A member, or an edge, names a node that is not there.
pub open spec fn names_unknown(ts: Seq<Tree>, es: Seq<Tree>) -> bool {
    ||| exists|k: int| #![trigger ts[k]]
        0 <= k < ts.len() && present(ts[k], "parentId"@) && !known(ts, val(ts[k], "parentId"@))
    ||| exists|k: int| #![trigger es[k]]
        0 <= k < es.len() && !(known(ts, val(es[k], "source"@)) && known(
            ts,
            val(es[k], "target"@),
        ))
}

/// A document describes a graph if and only if it is sound. Where it is not: a node or an edge
/// that is unsound by itself is malformed or unsupported; else the ids are at fault, first those
/// that clash, then those with dots; then names of nodes that are not there; then members in the
/// wrong place.
pub proof fn law_sound_documents_describe_graphs(t: Tree, default: RetryPolicy)
    ensures
        graph_error(t, default) is None <==> sound(t),
        !sound_parts(t) ==> graph_error(t, default) == Some(DocumentError::Malformed)
            || graph_error(t, default) == Some(DocumentError::Unsupported),
        sound_parts(t) && !sound(t) ==> graph_error(t, default) == Some(
            if ids_clash(items(t, "nodes"@)) {
                DocumentError::DuplicateId
            } else if id_dotted(items(t, "nodes"@)) {
                DocumentError::DottedId
            } else if names_unknown(items(t, "nodes"@), items(t, "edges"@)) {
                DocumentError::UnknownNode
            } else {
                DocumentError::Misplaced
            },
        ),
{
    let ts = items(t, "nodes"@);
    let es = items(t, "edges"@);
    if listy(t, "nodes"@) && listy(t, "edges"@) {
        lemma_nodes(ts, default, ts.len() as int);
    }
    if sound_parts(t) {
        lemma_parts(t, default);
        lemma_whole(t, default);
    } else {
        assert(!sound(t));
    }
}

proof fn lemma_whole(t: Tree, default: RetryPolicy)
    requires
        sound_parts(t),
    ensures
        ({
            let ts = items(t, "nodes"@);
            let es = items(t, "edges"@);
            &&& crate::document::ids_distinct(ts) <==> !ids_clash(ts)
            &&& crate::document::ids_dotless(ts) <==> !id_dotted(ts)
            &&& crate::document::parents_known(ts) && crate::document::ends_known(ts, es)
                <==> !names_unknown(ts, es)
            &&& sound(t) <==> !ids_clash(ts) && !id_dotted(ts) && !names_unknown(ts, es)
                && crate::document::well_placed(ts)
        }),
{
    let ts = items(t, "nodes"@);
    let es = items(t, "edges"@);
    lemma_parts(t, default);
    if !crate::document::ids_distinct(ts) {
        let (i, j) = choose|i: int, j: int|
            #![trigger ts[i], ts[j]]
            0 <= i < j < ts.len() && crate::document::id_of(ts[i]) == crate::document::id_of(ts[j]);
        assert(val(ts[i], "id"@) == val(ts[j], "id"@));
    }
    if !crate::document::ids_dotless(ts) {
        let k = choose|k: int|
            #![trigger ts[k]]
            0 <= k < ts.len() && !crate::graph::dotless(crate::document::id_of(ts[k]));
        assert(val(ts[k], "id"@)->Text_0.contains('.'));
    }
    assert(crate::document::parents_known(ts) <==> forall|k: int| #![trigger ts[k]]
        0 <= k < ts.len() && present(ts[k], "parentId"@) ==> known(ts, val(ts[k], "parentId"@))) by {
        assert forall|k: int| #![trigger ts[k]]
            0 <= k < ts.len() && present(ts[k], "parentId"@) implies known(
            ts,
            val(ts[k], "parentId"@),
        ) == (index_from(ts, crate::document::parent_of(ts[k])->0, 0) is Some) by {
            assert(known(ts, Tree::Text(crate::document::parent_of(ts[k])->0)) == (index_from(
                ts,
                crate::document::parent_of(ts[k])->0,
                0,
            ) is Some));
        }
    }
    assert(crate::document::ends_known(ts, es) <==> forall|k: int| #![trigger es[k]]
        0 <= k < es.len() ==> known(ts, val(es[k], "source"@)) && known(
            ts,
            val(es[k], "target"@),
        )) by {
        assert forall|k: int| #![trigger es[k]] 0 <= k < es.len() implies known(
            ts,
            val(es[k], "source"@),
        ) == (index_from(ts, crate::document::text_at(es[k], "source"@)->0, 0) is Some) && known(
            ts,
            val(es[k], "target"@),
        ) == (index_from(ts, crate::document::text_at(es[k], "target"@)->0, 0) is Some) by {
            let a = crate::document::text_at(es[k], "source"@)->0;
            let b = crate::document::text_at(es[k], "target"@)->0;
            assert(val(es[k], "source"@) == Tree::Text(a));
            assert(val(es[k], "target"@) == Tree::Text(b));
            assert(known(ts, Tree::Text(a)) == (index_from(ts, a, 0) is Some));
            assert(known(ts, Tree::Text(b)) == (index_from(ts, b, 0) is Some));
        }
    }
    if !ids_clash(ts) && !names_unknown(ts, es) {
        lemma_placed(t, default);
    }
}

/// The members are in their place.
pub open spec fn placed(ts: Seq<Tree>) -> bool {
    forall|i: int, j: int| #![trigger ts[i], ts[j]]
        0 <= i < ts.len() && 0 <= j < ts.len() && present(ts[i], "parentId"@) && val(ts[j], "id"@)
            == val(ts[i], "parentId"@) ==> holds_members(ts[j]) && !present(ts[j], "parentId"@)
            && !holds_members(ts[i])
}

proof fn lemma_placed(t: Tree, default: RetryPolicy)
    requires
        sound_parts(t),
        !ids_clash(items(t, "nodes"@)),
        !names_unknown(items(t, "nodes"@), items(t, "edges"@)),
    ensures
        placed(items(t, "nodes"@)) <==> crate::document::well_placed(items(t, "nodes"@)),
{
    let ts = items(t, "nodes"@);
    lemma_parts(t, default);
    assert forall|i: int, j: int|
        #![trigger ts[i], ts[j]]
        0 <= i < ts.len() && 0 <= j < ts.len() && present(ts[i], "parentId"@) implies (val(
        ts[j],
        "id"@,
    ) == val(ts[i], "parentId"@)) == (index_from(ts, crate::document::parent_of(ts[i])->0, 0)
        == Some(j)) by {
        let p = crate::document::parent_of(ts[i])->0;
        lemma_index(ts, p, 0);
        assert(known(ts, val(ts[i], "parentId"@)));
        assert(known(ts, Tree::Text(p)));
        let k = index_from(ts, p, 0)->0;
        assert(val(ts[k], "id"@) == Tree::Text(p));
        if val(ts[j], "id"@) == Tree::Text(p) && j != k {
            if j < k {
                assert(ids_clash(ts));
            } else {
                assert(ids_clash(ts));
            }
        }
    }
    if crate::document::well_placed(ts) {
        assert(placed(ts));
    }
    if placed(ts) {
        assert forall|i: int| #![trigger ts[i]] 0 <= i < ts.len() implies (
        crate::document::parent_of(ts[i]) matches Some(p) ==> {
            let parent = ts[index_from(ts, p, 0)->0];
            crate::document::composite_node(parent) && crate::document::parent_of(parent) is None
                && !crate::document::composite_node(ts[i])
        }) by {
            if let Some(p) = crate::document::parent_of(ts[i]) {
                lemma_index(ts, p, 0);
                assert(known(ts, val(ts[i], "parentId"@)));
                assert(known(ts, Tree::Text(p)));
                let k = index_from(ts, p, 0)->0;
                assert(val(ts[k], "id"@) == val(ts[i], "parentId"@));
            }
        }
    }
}

/// The first unsound node decides what is wrong with a document whose lists are there. A node
/// without an id, without anything that it says of itself, or without a kind is malformed; one of
/// another kind than the five is unsupported.
pub proof fn law_the_first_unsound_node_decides(t: Tree, default: RetryPolicy, k: int)
    requires
        listy(t, "nodes"@),
        listy(t, "edges"@),
        0 <= k < items(t, "nodes"@).len(),
        !sound_node(items(t, "nodes"@)[k]),
        forall|j: int| #![trigger items(t, "nodes"@)[j]]
            0 <= j < k ==> sound_node(items(t, "nodes"@)[j]),
    ensures
        ({
            let node = items(t, "nodes"@)[k];
            let data = val(node, "data"@);
            &&& !texty(node, "id"@) || !present(node, "data"@) || (present(node, "parentId"@)
                && !texty(node, "parentId"@)) || !texty(data, "kind"@) ==> graph_error(t, default)
                == Some(DocumentError::Malformed)
            &&& texty(node, "id"@) && present(node, "data"@) && (present(node, "parentId"@)
                ==> texty(node, "parentId"@)) && texty(data, "kind"@) && !says(
                data,
                "kind"@,
                Tree::Text("agent"@),
            ) && !says(data, "kind"@, Tree::Text("loop"@)) && !says(
                data,
                "kind"@,
                Tree::Text("iteration"@),
            ) && !says(data, "kind"@, Tree::Text("output"@)) ==> graph_error(t, default) == Some(
                DocumentError::Unsupported,
            )
            &&& present(data, "agentConfig"@) && says(data, "kind"@, Tree::Text("agent"@))
                ==> graph_error(t, default) == Some(DocumentError::Malformed)
        }),
{
    let ts = items(t, "nodes"@);
    lemma_kinds();
    lemma_node(ts[k], default);
    lemma_nodes(ts, default, k);
    lemma_first_unsound(ts, default, k, ts.len() as int);
    if present(ts[k], "data"@) {
        lemma_data(val(ts[k], "data"@), default);
    }
}

proof fn lemma_first_unsound(ts: Seq<Tree>, default: RetryPolicy, k: int, n: int)
    requires
        0 <= k < n <= ts.len(),
        nodes_error(ts, default, k) is None,
        node_error(ts[k], default) is Some,
    ensures
        nodes_error(ts, default, n) == node_error(ts[k], default),
    decreases n,
{
    if k < n - 1 {
        lemma_first_unsound(ts, default, k, n - 1);
    }
}

// ---------------------------------------------------------------------------------------------
// Which graph a document describes
// ---------------------------------------------------------------------------------------------

/// A graph has the nodes and the edges of its document, in order: each node its id, and what it is
/// a member of by that one's id; each edge its two ends, by their ids.
pub proof fn law_a_graph_has_its_documents_nodes_and_edges(
    t: Tree,
    default: RetryPolicy,
    g: Graph,
)
    requires
        sound(t),
        graph_reads(t, default, g),
    ensures
        ({
            let ts = items(t, "nodes"@);
            let es = items(t, "edges"@);
            &&& g.nodes@.len() == ts.len()
            &&& g.edges@.len() == es.len()
            &&& forall|i: int| #![trigger g.nodes@[i]]
                0 <= i < ts.len() ==> says(ts[i], "id"@, Tree::Text(g.nodes@[i].id@)) && match g.nodes@[i].parent {
                    Some(p) => p < ts.len() && present(ts[i], "parentId"@) && says(
                        ts[p as int],
                        "id"@,
                        val(ts[i], "parentId"@),
                    ),
                    None => !present(ts[i], "parentId"@),
                }
            &&& forall|k: int| #![trigger g.edges@[k]]
                0 <= k < es.len() ==> g.edges@[k].0 < ts.len() && g.edges@[k].1 < ts.len() && says(
                    ts[g.edges@[k].0 as int],
                    "id"@,
                    val(es[k], "source"@),
                ) && says(ts[g.edges@[k].1 as int], "id"@, val(es[k], "target"@))
        }),
{
    let ts = items(t, "nodes"@);
    let es = items(t, "edges"@);
    lemma_parts(t, default);
    assert forall|i: int| #![trigger g.nodes@[i]] 0 <= i < ts.len() implies says(
        ts[i],
        "id"@,
        Tree::Text(g.nodes@[i].id@),
    ) && match g.nodes@[i].parent {
        Some(p) => p < ts.len() && present(ts[i], "parentId"@) && says(
            ts[p as int],
            "id"@,
            val(ts[i], "parentId"@),
        ),
        None => !present(ts[i], "parentId"@),
    } by {
        assert(node_reads(ts, i, default, g.nodes@[i]));
        assert(sound_node(ts[i]));
        if let Some(p) = crate::document::parent_of(ts[i]) {
            lemma_index(ts, p, 0);
            let k = index_from(ts, p, 0)->0;
            assert(sound_node(ts[k]));
        }
    }
    assert forall|k: int| #![trigger g.edges@[k]] 0 <= k < es.len() implies g.edges@[k].0 < ts.len()
        && g.edges@[k].1 < ts.len() && says(
        ts[g.edges@[k].0 as int],
        "id"@,
        val(es[k], "source"@),
    ) && says(ts[g.edges@[k].1 as int], "id"@, val(es[k], "target"@)) by {
        assert(crate::document::edge_reads(ts, es[k], g.edges@[k]));
        assert(texty(es[k], "source"@));
        let a = crate::document::text_at(es[k], "source"@)->0;
        let b = crate::document::text_at(es[k], "target"@)->0;
        lemma_index(ts, a, 0);
        lemma_index(ts, b, 0);
        assert(sound_node(ts[g.edges@[k].0 as int]));
        assert(sound_node(ts[g.edges@[k].1 as int]));
    }
}

/// Each binding of a list is read: its name as a variable of the node, and its source by its path.
pub open spec fn bindings_of(list: Seq<Tree>, id: Seq<char>, bs: Seq<Binding>) -> bool {
    &&& bs.len() == list.len()
    &&& forall|k: int| #![trigger bs[k]]
        0 <= k < bs.len() ==> {
            &&& bs[k].name@ == id.push('.') + val(list[k], "name"@)->Text_0
            &&& bs[k].source@ == dots(items(list[k], "variableSelector"@))
        }
}

proof fn lemma_bindings_of(list: Seq<Tree>, id: Seq<char>, bs: Seq<Binding>)
    requires
        sound_bindings(list),
        crate::document::bindings_read(list, id, bs),
    ensures
        bindings_of(list, id, bs),
{
    assert forall|k: int| #![trigger bs[k]] 0 <= k < bs.len() implies bs[k].name@ == id.push('.')
        + val(list[k], "name"@)->Text_0 && bs[k].source@ == dots(
        items(list[k], "variableSelector"@),
    ) by {
        assert(crate::document::binding_reads(list[k], id, bs[k]));
        assert(sound_binding(list[k]));
        lemma_path(list[k], "variableSelector"@);
        law_a_variable_is_named_after_its_node(id, val(list[k], "name"@)->Text_0);
    }
}

/// A node does what its document says of it. An agent has its prompt, and its retry policy, by
/// default the given one. An iteration goes over its list and collects from its rounds. A loop has
/// its rounds, its variables, its conditions and its outputs. An output node has its bindings, by
/// default none. A start node has nothing to say.
pub proof fn law_a_node_does_what_its_document_says(
    data: Tree,
    id: Seq<char>,
    default: RetryPolicy,
    k: NodeKind,
)
    requires
        sound_data(data),
        kind_reads(data, id, default, k),
    ensures
        says(data, "kind"@, Tree::Text("start"@)) ==> k is Start,
        says(data, "kind"@, Tree::Text("agent"@)) ==> (k matches NodeKind::Agent(a) && {
            let c = val(data, "agentConfig"@);
            let r = val(c, "retry"@);
            &&& val(c, "prompt"@) == Tree::Text(a.prompt@)
            &&& if present(c, "retry"@) {
                &&& val(r, "enabled"@) == Tree::Bool(a.retry.enabled)
                &&& val(r, "maxRetries"@)->Number_0 == Some(a.retry.max_retries)
                &&& val(r, "initialDelaySeconds"@)->Number_0 == Some(a.retry.initial_delay_seconds)
            } else {
                a.retry == default
            }
        }),
        says(data, "kind"@, Tree::Text("iteration"@)) ==> (k matches NodeKind::Iteration(c) && {
            let t = val(data, "iterationConfig"@);
            &&& c.iterator@ == dots(items(t, "iteratorSelector"@))
            &&& c.collect@ == dots(items(t, "collectSelector"@))
        }),
        says(data, "kind"@, Tree::Text("output"@)) ==> (k matches NodeKind::Output(bs)
            && if present(data, "outputs"@) {
            bindings_of(items(data, "outputs"@), id, bs@)
        } else {
            bs@.len() == 0
        }),
        says(data, "kind"@, Tree::Text("loop"@)) ==> (k matches NodeKind::Loop(c) && {
            let t = val(data, "loopConfig"@);
            let vs = items(t, "variables"@);
            let cs = items(val(t, "until"@), "conditions"@);
            &&& val(t, "maxIterations"@)->Number_0 == Some(c.max_iterations)
            &&& c.variables@.len() == vs.len()
            &&& forall|j: int| #![trigger c.variables@[j]]
                0 <= j < vs.len() ==> {
                    let v = c.variables@[j];
                    &&& v.name@ == id.push('.') + val(vs[j], "name"@)->Text_0
                    &&& v.initial@ == val(val(vs[j], "initial"@), "value"@)
                    &&& v.feedback@ == dots(items(vs[j], "feedback"@))
                }
            &&& c.until@.len() == cs.len()
            &&& forall|j: int| #![trigger c.until@[j]]
                0 <= j < cs.len() ==> {
                    &&& c.until@[j].variable@ == dots(items(cs[j], "variableSelector"@))
                    &&& Tree::Text(c.until@[j].value@) == val(cs[j], "value"@)
                }
            &&& bindings_of(items(t, "outputs"@), id, c.outputs@)
        }),
{
    lemma_kinds();
    lemma_data(data, default);
    if says(data, "kind"@, Tree::Text("iteration"@)) {
        let t = val(data, "iterationConfig"@);
        lemma_path(t, "iteratorSelector"@);
        lemma_path(t, "collectSelector"@);
    }
    if says(data, "kind"@, Tree::Text("output"@)) && present(data, "outputs"@) {
        if let NodeKind::Output(bs) = k {
            lemma_bindings_of(items(data, "outputs"@), id, bs@);
        }
    }
    if says(data, "kind"@, Tree::Text("loop"@)) {
        let t = val(data, "loopConfig"@);
        let c = k->Loop_0;
        let vs = items(t, "variables"@);
        let cs = items(val(t, "until"@), "conditions"@);
        lemma_bindings_of(items(t, "outputs"@), id, c.outputs@);
        assert forall|j: int| #![trigger c.variables@[j]] 0 <= j < vs.len() implies {
            let v = c.variables@[j];
            &&& v.name@ == id.push('.') + val(vs[j], "name"@)->Text_0
            &&& v.initial@ == val(val(vs[j], "initial"@), "value"@)
            &&& v.feedback@ == dots(items(vs[j], "feedback"@))
        } by {
            assert(crate::document::loop_variable_reads(vs[j], id, c.variables@[j]));
            assert(sound_variable(vs[j]));
            lemma_path(vs[j], "feedback"@);
            law_a_variable_is_named_after_its_node(id, val(vs[j], "name"@)->Text_0);
        }
        assert forall|j: int| #![trigger c.until@[j]] 0 <= j < cs.len() implies c.until@[j].variable@
            == dots(items(cs[j], "variableSelector"@)) && Tree::Text(c.until@[j].value@) == val(
            cs[j],
            "value"@,
        ) by {
            assert(crate::document::condition_reads(cs[j], c.until@[j]));
            assert(sound_condition(cs[j]));
            lemma_path(cs[j], "variableSelector"@);
        }
    }
}

/// Each node of a graph does what the document's node at its place says of itself.
pub proof fn law_each_node_is_read_from_its_place(
    t: Tree,
    default: RetryPolicy,
    g: Graph,
    i: int,
)
    requires
        sound(t),
        graph_reads(t, default, g),
        0 <= i < g.nodes@.len(),
    ensures
        sound_data(val(items(t, "nodes"@)[i], "data"@)),
        kind_reads(
            val(items(t, "nodes"@)[i], "data"@),
            g.nodes@[i].id@,
            default,
            g.nodes@[i].kind,
        ),
{
    let ts = items(t, "nodes"@);
    assert(node_reads(ts, i, default, g.nodes@[i]));
    assert(sound_node(ts[i]));
}

// ---------------------------------------------------------------------------------------------
// Documents of one agent
// ---------------------------------------------------------------------------------------------

proof fn lemma_two(a: Seq<char>, x: Tree, b: Seq<char>, y: Tree)
    requires
        a != b,
    ensures
        says(obj(seq![(a, x), (b, y)]), a, x),
        says(obj(seq![(a, x), (b, y)]), b, y),
{
    let all = seq![(a, x), (b, y)];
    assert(all.drop_last() =~= seq![(a, x)]);
    assert(all.drop_last().drop_last() =~= Seq::empty());
    reveal_with_fuel(fields_map, 3);
}

/// A document of one agent leads from `start` over `worker` to `output`, and `worker` has the given
/// config, whatever that is.
pub proof fn law_a_single_agent_has_the_given_config(config: Tree)
    ensures
        ({
            let t = single_agent_document(config);
            let ts = items(t, "nodes"@);
            let es = items(t, "edges"@);
            &&& listy(t, "nodes"@) && listy(t, "edges"@)
            &&& ts.len() == 3 && es.len() == 2
            &&& says(ts[0], "id"@, Tree::Text("start"@))
            &&& says(val(ts[0], "data"@), "kind"@, Tree::Text("start"@))
            &&& says(ts[1], "id"@, Tree::Text("worker"@))
            &&& says(val(ts[1], "data"@), "kind"@, Tree::Text("agent"@))
            &&& says(val(ts[1], "data"@), "agentConfig"@, config)
            &&& says(ts[2], "id"@, Tree::Text("output"@))
            &&& says(val(ts[2], "data"@), "kind"@, Tree::Text("output"@))
            &&& says(es[0], "source"@, Tree::Text("start"@))
            &&& says(es[0], "target"@, Tree::Text("worker"@))
            &&& says(es[1], "source"@, Tree::Text("worker"@))
            &&& says(es[1], "target"@, Tree::Text("output"@))
        }),
{
    lemma_names();
    let t = single_agent_document(config);
    let data = obj(seq![("kind"@, Tree::Text("agent"@)), ("agentConfig"@, config)]);
    let start = obj(seq![("kind"@, Tree::Text("start"@))]);
    let end = obj(seq![("kind"@, Tree::Text("output"@))]);
    lemma_two("kind"@, Tree::Text("agent"@), "agentConfig"@, config);
    lemma_two("id"@, Tree::Text("start"@), "data"@, start);
    lemma_two("id"@, Tree::Text("worker"@), "data"@, data);
    lemma_two("id"@, Tree::Text("output"@), "data"@, end);
    lemma_two("source"@, Tree::Text("start"@), "target"@, Tree::Text("worker"@));
    lemma_two("source"@, Tree::Text("worker"@), "target"@, Tree::Text("output"@));
    assert(says(start, "kind"@, Tree::Text("start"@))) by {
        reveal_with_fuel(fields_map, 2);
    }
    assert(says(end, "kind"@, Tree::Text("output"@))) by {
        reveal_with_fuel(fields_map, 2);
    }
    let nodes = Tree::Array(
        seq![
            obj(seq![("id"@, Tree::Text("start"@)), ("data"@, start)]),
            obj(seq![("id"@, Tree::Text("worker"@)), ("data"@, data)]),
            obj(seq![("id"@, Tree::Text("output"@)), ("data"@, end)]),
        ],
    );
    let edges = Tree::Array(
        seq![
            crate::samples::edge("start"@, "worker"@),
            crate::samples::edge("worker"@, "output"@),
        ],
    );
    lemma_two("nodes"@, nodes, "edges"@, edges);
}

} // verus!
