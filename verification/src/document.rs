//! Workflow documents: the JSON that describes a graph.

use crate::failure::text_view;
use crate::graph::AgentConfig;
use crate::graph::Binding;
use crate::graph::Condition;
use crate::graph::Graph;
use crate::graph::IterationConfig;
use crate::graph::LoopConfig;
use crate::graph::LoopVariable;
use crate::graph::Node;
use crate::graph::NodeKind;
use crate::graph::RetryPolicy;
use crate::graph::default_retry;
use crate::graph::bindings_owned;
use crate::graph::dotless;
use crate::graph::owned;
use crate::json::Json;
use crate::json::Tree;
use crate::json::at;
use crate::json::json_document;
use crate::json::parse_json;
use crate::json::trees_of;
use crate::pool::lemma_variable_owned;
use crate::pool::variable;
use crate::pool::variable_text;
use crate::text::chars_of;
use crate::text::same_text;
use vstd::prelude::*;

verus! {

/// Why a document describes no graph.
#[derive(Clone, Copy, Debug, PartialEq, Eq, Structural)]
pub enum DocumentError {
    /// The text is no JSON.
    NotJson,
    /// A field is missing, or is not what it should be.
    Malformed,
    /// A kind, an operator or a strategy is not known.
    Unsupported,
    /// Two nodes have one id.
    DuplicateId,
    /// An id holds a dot.
    DottedId,
    /// An edge, or a member, names a node that is not there.
    UnknownNode,
    /// A member of something that is no loop and no iteration, or one inside another.
    Misplaced,
}

// ---------------------------------------------------------------------------------------------
// Fields
// ---------------------------------------------------------------------------------------------

/// A field that is a text.
pub open spec fn text_at(t: Tree, key: Seq<char>) -> Option<Seq<char>> {
    match at(t, key) {
        Some(Tree::Text(s)) => Some(s),
        _ => None,
    }
}

/// A field that is a whole number.
pub open spec fn count_at(t: Tree, key: Seq<char>) -> Option<u64> {
    match at(t, key) {
        Some(Tree::Number(n, _)) => n,
        _ => None,
    }
}

/// A field that is a truth value.
pub open spec fn bool_at(t: Tree, key: Seq<char>) -> Option<bool> {
    match at(t, key) {
        Some(Tree::Bool(b)) => Some(b),
        _ => None,
    }
}

/// A field that is a list.
pub open spec fn list_at(t: Tree, key: Seq<char>) -> Option<Seq<Tree>> {
    match at(t, key) {
        Some(Tree::Array(items)) => Some(items),
        _ => None,
    }
}

/// The first `n` texts of a list, with dots between them; `None` where one is no text.
pub open spec fn dotted(items: Seq<Tree>, n: int) -> Option<Seq<char>>
    decreases n,
{
    if n <= 0 {
        None
    } else {
        match items[n - 1] {
            Tree::Text(s) => if n == 1 {
                Some(s)
            } else {
                match dotted(items, n - 1) {
                    Some(front) => Some(front + "."@ + s),
                    None => None,
                }
            },
            _ => None,
        }
    }
}

/// The name of the variable that a field selects by its path.
pub open spec fn selector_at(t: Tree, key: Seq<char>) -> Option<Seq<char>> {
    match list_at(t, key) {
        Some(items) => dotted(items, items.len() as int),
        None => None,
    }
}

fn text_field(j: &Json, key: &str) -> (r: Option<String>)
    ensures
        match r {
            Some(s) => text_at(j@, key@) == Some(s@),
            None => text_at(j@, key@) is None,
        },
{
    match j.get(key) {
        Some(Json::Text(s)) => Some(s.clone()),
        _ => None,
    }
}

fn count_field(j: &Json, key: &str) -> (r: Option<u64>)
    ensures
        r == count_at(j@, key@),
{
    match j.get(key) {
        Some(Json::Number(n, _)) => *n,
        _ => None,
    }
}

fn bool_field(j: &Json, key: &str) -> (r: Option<bool>)
    ensures
        r == bool_at(j@, key@),
{
    match j.get(key) {
        Some(Json::Bool(b)) => Some(*b),
        _ => None,
    }
}

fn list_field<'a>(j: &'a Json, key: &str) -> (r: Option<&'a Vec<Json>>)
    ensures
        match r {
            Some(items) => list_at(j@, key@) == Some(trees_of(items@)),
            None => list_at(j@, key@) is None,
        },
{
    match j.get(key) {
        Some(Json::Array(items)) => Some(items),
        _ => None,
    }
}

fn selector_field(j: &Json, key: &str) -> (r: Option<String>)
    ensures
        match r {
            Some(s) => selector_at(j@, key@) == Some(s@),
            None => selector_at(j@, key@) is None,
        },
{
    let items = match list_field(j, key) {
        Some(items) => items,
        None => {
            return None;
        },
    };
    let n: usize = items.len();
    dotted_text(items, n)
}

fn dotted_text(items: &Vec<Json>, n: usize) -> (r: Option<String>)
    requires
        n <= items@.len(),
    ensures
        match r {
            Some(s) => dotted(trees_of(items@), n as int) == Some(s@),
            None => dotted(trees_of(items@), n as int) is None,
        },
    decreases n,
{
    if n == 0 {
        return None;
    }
    assert(trees_of(items@)[n - 1] == items@[n - 1]@);
    match &items[n - 1] {
        Json::Text(s) => if n == 1 {
            Some(s.clone())
        } else {
            match dotted_text(items, n - 1) {
                Some(front) => Some(front.concat(".").concat(s.as_str())),
                None => None,
            }
        },
        _ => None,
    }
}

// ---------------------------------------------------------------------------------------------
// The parts of a node
// ---------------------------------------------------------------------------------------------

/// An agent's retry policy; where the document is silent, the given one.
pub open spec fn retry_of(config: Tree, default: RetryPolicy) -> Option<RetryPolicy> {
    match at(config, "retry"@) {
        None => Some(default),
        Some(r) => match (
            bool_at(r, "enabled"@),
            count_at(r, "maxRetries"@),
            count_at(r, "initialDelaySeconds"@),
        ) {
            (Some(enabled), Some(max_retries), Some(initial_delay_seconds)) => Some(
                RetryPolicy { enabled, max_retries, initial_delay_seconds },
            ),
            _ => None,
        },
    }
}

fn read_retry(config: &Json, default: RetryPolicy) -> (r: Option<RetryPolicy>)
    ensures
        r == retry_of(config@, default),
{
    match config.get("retry") {
        None => Some(default),
        Some(r) => match (
            bool_field(r, "enabled"),
            count_field(r, "maxRetries"),
            count_field(r, "initialDelaySeconds"),
        ) {
            (Some(enabled), Some(max_retries), Some(initial_delay_seconds)) => Some(
                RetryPolicy { enabled, max_retries, initial_delay_seconds },
            ),
            _ => None,
        },
    }
}

/// A binding is well-formed: it has a name and selects a variable.
pub open spec fn binding_ok(t: Tree) -> bool {
    text_at(t, "name"@) is Some && selector_at(t, "variableSelector"@) is Some
}

/// `b` is the binding that `t` describes, for the node `id`.
pub open spec fn binding_reads(t: Tree, id: Seq<char>, b: Binding) -> bool {
    b.name@ == variable(id, text_at(t, "name"@)->0) && b.source@ == selector_at(
        t,
        "variableSelector"@,
    )->0
}

/// All bindings of a list are well-formed.
pub open spec fn bindings_ok(ts: Seq<Tree>) -> bool {
    forall|k: int| #![trigger ts[k]] 0 <= k < ts.len() ==> binding_ok(ts[k])
}

/// `bs` are the bindings that a list describes, for the node `id`.
pub open spec fn bindings_read(ts: Seq<Tree>, id: Seq<char>, bs: Seq<Binding>) -> bool {
    bs.len() == ts.len() && forall|k: int| #![trigger bs[k]]
        0 <= k < ts.len() ==> binding_reads(ts[k], id, bs[k])
}

fn read_bindings(items: &Vec<Json>, id: &str) -> (r: Option<Vec<Binding>>)
    ensures
        r is Some <==> bindings_ok(trees_of(items@)),
        r matches Some(bs) ==> bindings_read(trees_of(items@), id@, bs@),
{
    let mut bs: Vec<Binding> = Vec::new();
    for i in 0..items.len()
        invariant
            bs@.len() == i,
            forall|k: int| #![trigger trees_of(items@)[k]]
                0 <= k < i ==> binding_ok(trees_of(items@)[k]),
            forall|k: int| #![trigger bs@[k]]
                0 <= k < i ==> binding_reads(trees_of(items@)[k], id@, bs@[k]),
    {
        assert(trees_of(items@)[i as int] == items@[i as int]@);
        match (text_field(&items[i], "name"), selector_field(&items[i], "variableSelector")) {
            (Some(name), Some(source)) => {
                bs.push(Binding { name: variable_text(id, name.as_str()), source });
            },
            _ => {
                assert(!binding_ok(trees_of(items@)[i as int]));
                return None;
            },
        }
    }
    Some(bs)
}

/// A loop variable is well-formed.
pub open spec fn loop_variable_ok(t: Tree) -> bool {
    &&& text_at(t, "name"@) is Some
    &&& at(t, "initial"@) is Some
    &&& text_at(at(t, "initial"@)->0, "kind"@) is Some
    &&& at(at(t, "initial"@)->0, "value"@) is Some
    &&& selector_at(t, "feedback"@) is Some
}

/// A loop variable begins with a constant.
pub open spec fn loop_variable_known(t: Tree) -> bool {
    text_at(at(t, "initial"@)->0, "kind"@) == Some("constant"@)
}

/// `v` is the loop variable that `t` describes, for the node `id`.
pub open spec fn loop_variable_reads(t: Tree, id: Seq<char>, v: LoopVariable) -> bool {
    &&& v.name@ == variable(id, text_at(t, "name"@)->0)
    &&& v.initial@ == at(at(t, "initial"@)->0, "value"@)->0
    &&& v.feedback@ == selector_at(t, "feedback"@)->0
}

fn read_loop_variable(j: &Json, id: &str) -> (r: Option<(LoopVariable, bool)>)
    ensures
        r is Some <==> loop_variable_ok(j@),
        r matches Some((v, known)) ==> loop_variable_reads(j@, id@, v) && known
            == loop_variable_known(j@),
{
    let name = text_field(j, "name")?;
    let initial = j.get("initial")?;
    let kind = text_field(initial, "kind")?;
    let value = initial.get("value")?;
    let feedback = selector_field(j, "feedback")?;
    let v = LoopVariable {
        name: variable_text(id, name.as_str()),
        initial: value.copied(),
        feedback,
    };
    Some((v, same_text(kind.as_str(), "constant")))
}

/// A condition is well-formed.
pub open spec fn condition_ok(t: Tree) -> bool {
    &&& selector_at(t, "variableSelector"@) is Some
    &&& text_at(t, "operator"@) is Some
    &&& text_at(t, "value"@) is Some
}

/// A condition asks for equality.
pub open spec fn condition_known(t: Tree) -> bool {
    text_at(t, "operator"@) == Some("equals"@)
}

/// `c` is the condition that `t` describes.
pub open spec fn condition_reads(t: Tree, c: Condition) -> bool {
    c.variable@ == selector_at(t, "variableSelector"@)->0 && c.value@ == text_at(t, "value"@)->0
}

fn read_condition(j: &Json) -> (r: Option<(Condition, bool)>)
    ensures
        r is Some <==> condition_ok(j@),
        r matches Some((c, known)) ==> condition_reads(j@, c) && known == condition_known(j@),
{
    let variable = selector_field(j, "variableSelector")?;
    let operator = text_field(j, "operator")?;
    let value = text_field(j, "value")?;
    Some((Condition { variable, value }, same_text(operator.as_str(), "equals")))
}

/// A loop's part of a node is well-formed.
pub open spec fn loop_ok(t: Tree) -> bool {
    &&& count_at(t, "maxIterations"@) is Some
    &&& list_at(t, "variables"@) matches Some(vs) && loop_variables_ok(vs)
    &&& at(t, "until"@) matches Some(u) && text_at(u, "logic"@) is Some && (list_at(
        u,
        "conditions"@,
    ) matches Some(cs) && conditions_ok(cs))
    &&& list_at(t, "outputs"@) matches Some(bs) && bindings_ok(bs)
}

/// A loop's variables begin with constants, and it ends when all its conditions of equality hold.
pub open spec fn loop_known(t: Tree) -> bool {
    &&& text_at(at(t, "until"@)->0, "logic"@) == Some("and"@)
    &&& loop_variables_known(list_at(t, "variables"@)->0)
    &&& conditions_known(list_at(at(t, "until"@)->0, "conditions"@)->0)
}

/// `c` is the loop that `t` describes, for the node `id`.
pub open spec fn loop_reads(t: Tree, id: Seq<char>, c: LoopConfig) -> bool {
    &&& count_at(t, "maxIterations"@) == Some(c.max_iterations)
    &&& loop_variables_read(list_at(t, "variables"@)->0, id, c.variables@)
    &&& conditions_read(list_at(at(t, "until"@)->0, "conditions"@)->0, c.until@)
    &&& bindings_read(list_at(t, "outputs"@)->0, id, c.outputs@)
}

/// All loop variables of a list are well-formed.
pub open spec fn loop_variables_ok(ts: Seq<Tree>) -> bool {
    forall|k: int| #![trigger ts[k]] 0 <= k < ts.len() ==> loop_variable_ok(ts[k])
}

/// All loop variables of a list begin with constants.
pub open spec fn loop_variables_known(ts: Seq<Tree>) -> bool {
    forall|k: int| #![trigger ts[k]] 0 <= k < ts.len() ==> loop_variable_known(ts[k])
}

/// `vs` are the loop variables that a list describes, for the node `id`.
pub open spec fn loop_variables_read(ts: Seq<Tree>, id: Seq<char>, vs: Seq<LoopVariable>) -> bool {
    vs.len() == ts.len() && forall|k: int| #![trigger vs[k]]
        0 <= k < ts.len() ==> loop_variable_reads(ts[k], id, vs[k])
}

fn read_loop_variables(items: &Vec<Json>, id: &str) -> (r: Option<(Vec<LoopVariable>, bool)>)
    ensures
        r is Some <==> loop_variables_ok(trees_of(items@)),
        r matches Some((vs, known)) ==> loop_variables_read(trees_of(items@), id@, vs@) && known
            == loop_variables_known(trees_of(items@)),
{
    let mut vs: Vec<LoopVariable> = Vec::new();
    let mut known = true;
    for i in 0..items.len()
        invariant
            vs@.len() == i,
            forall|k: int| #![trigger trees_of(items@)[k]]
                0 <= k < i ==> loop_variable_ok(trees_of(items@)[k]),
            forall|k: int| #![trigger vs@[k]]
                0 <= k < i ==> loop_variable_reads(trees_of(items@)[k], id@, vs@[k]),
            known <==> forall|k: int| #![trigger trees_of(items@)[k]]
                0 <= k < i ==> loop_variable_known(trees_of(items@)[k]),
    {
        assert(trees_of(items@)[i as int] == items@[i as int]@);
        match read_loop_variable(&items[i], id) {
            Some((v, v_known)) => {
                vs.push(v);
                known = known && v_known;
            },
            None => {
                assert(!loop_variable_ok(trees_of(items@)[i as int]));
                return None;
            },
        }
    }
    Some((vs, known))
}

/// All conditions of a list are well-formed.
pub open spec fn conditions_ok(ts: Seq<Tree>) -> bool {
    forall|k: int| #![trigger ts[k]] 0 <= k < ts.len() ==> condition_ok(ts[k])
}

/// All conditions of a list ask for equality.
pub open spec fn conditions_known(ts: Seq<Tree>) -> bool {
    forall|k: int| #![trigger ts[k]] 0 <= k < ts.len() ==> condition_known(ts[k])
}

/// `cs` are the conditions that a list describes.
pub open spec fn conditions_read(ts: Seq<Tree>, cs: Seq<Condition>) -> bool {
    cs.len() == ts.len() && forall|k: int| #![trigger cs[k]]
        0 <= k < ts.len() ==> condition_reads(ts[k], cs[k])
}

fn read_conditions(items: &Vec<Json>) -> (r: Option<(Vec<Condition>, bool)>)
    ensures
        r is Some <==> conditions_ok(trees_of(items@)),
        r matches Some((cs, known)) ==> conditions_read(trees_of(items@), cs@) && known
            == conditions_known(trees_of(items@)),
{
    let mut cs: Vec<Condition> = Vec::new();
    let mut known = true;
    for i in 0..items.len()
        invariant
            cs@.len() == i,
            forall|k: int| #![trigger trees_of(items@)[k]]
                0 <= k < i ==> condition_ok(trees_of(items@)[k]),
            forall|k: int| #![trigger cs@[k]]
                0 <= k < i ==> condition_reads(trees_of(items@)[k], cs@[k]),
            known <==> forall|k: int| #![trigger trees_of(items@)[k]]
                0 <= k < i ==> condition_known(trees_of(items@)[k]),
    {
        assert(trees_of(items@)[i as int] == items@[i as int]@);
        match read_condition(&items[i]) {
            Some((c, c_known)) => {
                cs.push(c);
                known = known && c_known;
            },
            None => {
                assert(!condition_ok(trees_of(items@)[i as int]));
                return None;
            },
        }
    }
    Some((cs, known))
}

fn read_loop(j: &Json, id: &str) -> (r: Option<(LoopConfig, bool)>)
    ensures
        r is Some <==> loop_ok(j@),
        r matches Some((c, known)) ==> loop_reads(j@, id@, c) && known == loop_known(j@),
{
    let max_iterations = count_field(j, "maxIterations")?;
    let (variables, variables_known) = read_loop_variables(list_field(j, "variables")?, id)?;
    let until = j.get("until")?;
    let logic = text_field(until, "logic")?;
    let (conditions, conditions_known) = read_conditions(list_field(until, "conditions")?)?;
    let outputs = read_bindings(list_field(j, "outputs")?, id)?;
    let known = same_text(logic.as_str(), "and") && variables_known && conditions_known;
    Some((LoopConfig { max_iterations, variables, until: conditions, outputs }, known))
}

/// An iteration's part of a node is well-formed.
pub open spec fn iteration_ok(t: Tree) -> bool {
    &&& selector_at(t, "iteratorSelector"@) is Some
    &&& selector_at(t, "collectSelector"@) is Some
    &&& text_at(t, "errorStrategy"@) is Some
}

/// What goes wrong, by the document, for the part of a node that depends on its kind.
pub open spec fn kind_error(data: Tree, default: RetryPolicy) -> Option<DocumentError> {
    match text_at(data, "kind"@) {
        None => Some(DocumentError::Malformed),
        Some(kind) => if kind == "start"@ {
            None
        } else if kind == "agent"@ {
            match at(data, "agentConfig"@) {
                Some(c) => if text_at(c, "prompt"@) is Some && retry_of(c, default) is Some {
                    None
                } else {
                    Some(DocumentError::Malformed)
                },
                None => Some(DocumentError::Malformed),
            }
        } else if kind == "loop"@ {
            match at(data, "loopConfig"@) {
                Some(c) => if !loop_ok(c) {
                    Some(DocumentError::Malformed)
                } else if !loop_known(c) {
                    Some(DocumentError::Unsupported)
                } else {
                    None
                },
                None => Some(DocumentError::Malformed),
            }
        } else if kind == "iteration"@ {
            match at(data, "iterationConfig"@) {
                Some(c) => if !iteration_ok(c) {
                    Some(DocumentError::Malformed)
                } else if text_at(c, "errorStrategy"@) != Some("fail"@) {
                    Some(DocumentError::Unsupported)
                } else {
                    None
                },
                None => Some(DocumentError::Malformed),
            }
        } else if kind == "output"@ {
            match at(data, "outputs"@) {
                None => None,
                Some(Tree::Array(bs)) => if bindings_ok(bs) {
                    None
                } else {
                    Some(DocumentError::Malformed)
                },
                _ => Some(DocumentError::Malformed),
            }
        } else {
            Some(DocumentError::Unsupported)
        },
    }
}

/// `k` is the kind that `data` describes, for the node `id`.
pub open spec fn kind_reads(data: Tree, id: Seq<char>, default: RetryPolicy, k: NodeKind) -> bool {
    let kind = text_at(data, "kind"@)->0;
    if kind == "start"@ {
        k is Start
    } else if kind == "agent"@ {
        let c = at(data, "agentConfig"@)->0;
        k matches NodeKind::Agent(a) && a.prompt@ == text_at(c, "prompt"@)->0 && retry_of(
            c,
            default,
        ) == Some(a.retry)
    } else if kind == "loop"@ {
        k matches NodeKind::Loop(c) && loop_reads(at(data, "loopConfig"@)->0, id, c)
    } else if kind == "iteration"@ {
        let t = at(data, "iterationConfig"@)->0;
        k matches NodeKind::Iteration(c) && c.iterator@ == selector_at(t, "iteratorSelector"@)->0
            && c.collect@ == selector_at(t, "collectSelector"@)->0
    } else {
        k matches NodeKind::Output(bs) && match at(data, "outputs"@) {
            Some(Tree::Array(items)) => bindings_read(items, id, bs@),
            _ => bs@.len() == 0,
        }
    }
}

fn read_kind(data: &Json, id: &str, default: RetryPolicy) -> (r: Result<NodeKind, DocumentError>)
    ensures
        match r {
            Ok(k) => kind_error(data@, default) is None && kind_reads(data@, id@, default, k),
            Err(e) => kind_error(data@, default) == Some(e),
        },
{
    let kind = match text_field(data, "kind") {
        Some(kind) => kind,
        None => {
            return Err(DocumentError::Malformed);
        },
    };
    if same_text(kind.as_str(), "start") {
        return Ok(NodeKind::Start);
    }
    if same_text(kind.as_str(), "agent") {
        let config = match data.get("agentConfig") {
            Some(c) => c,
            None => {
                return Err(DocumentError::Malformed);
            },
        };
        return match (text_field(config, "prompt"), read_retry(config, default)) {
            (Some(prompt), Some(retry)) => Ok(NodeKind::Agent(AgentConfig { prompt, retry })),
            _ => Err(DocumentError::Malformed),
        };
    }
    if same_text(kind.as_str(), "loop") {
        let config = match data.get("loopConfig") {
            Some(c) => c,
            None => {
                return Err(DocumentError::Malformed);
            },
        };
        return match read_loop(config, id) {
            Some((c, known)) => if known {
                Ok(NodeKind::Loop(c))
            } else {
                Err(DocumentError::Unsupported)
            },
            None => Err(DocumentError::Malformed),
        };
    }
    if same_text(kind.as_str(), "iteration") {
        let config = match data.get("iterationConfig") {
            Some(c) => c,
            None => {
                return Err(DocumentError::Malformed);
            },
        };
        return match (
            selector_field(config, "iteratorSelector"),
            selector_field(config, "collectSelector"),
            text_field(config, "errorStrategy"),
        ) {
            (Some(iterator), Some(collect), Some(strategy)) => if same_text(
                strategy.as_str(),
                "fail",
            ) {
                Ok(NodeKind::Iteration(IterationConfig { iterator, collect }))
            } else {
                Err(DocumentError::Unsupported)
            },
            _ => Err(DocumentError::Malformed),
        };
    }
    if same_text(kind.as_str(), "output") {
        return match data.get("outputs") {
            None => Ok(NodeKind::Output(Vec::new())),
            Some(Json::Array(items)) => match read_bindings(items, id) {
                Some(bs) => Ok(NodeKind::Output(bs)),
                None => Err(DocumentError::Malformed),
            },
            _ => Err(DocumentError::Malformed),
        };
    }
    Err(DocumentError::Unsupported)
}

// ---------------------------------------------------------------------------------------------
// Nodes and edges
// ---------------------------------------------------------------------------------------------

/// A node's id.
pub open spec fn id_of(t: Tree) -> Seq<char> {
    text_at(t, "id"@)->0
}

/// The id of the node that a node is a member of.
pub open spec fn parent_of(t: Tree) -> Option<Seq<char>> {
    text_at(t, "parentId"@)
}

/// What goes wrong, by the document, for a node.
pub open spec fn node_error(t: Tree, default: RetryPolicy) -> Option<DocumentError> {
    if text_at(t, "id"@) is None || at(t, "data"@) is None || (at(t, "parentId"@) is Some
        && parent_of(t) is None) {
        Some(DocumentError::Malformed)
    } else {
        kind_error(at(t, "data"@)->0, default)
    }
}

/// What goes wrong first for the first `n` nodes.
pub open spec fn nodes_error(ts: Seq<Tree>, default: RetryPolicy, n: int) -> Option<DocumentError>
    decreases n,
{
    if n <= 0 {
        None
    } else {
        match nodes_error(ts, default, n - 1) {
            Some(e) => Some(e),
            None => node_error(ts[n - 1], default),
        }
    }
}

/// The first node from `i` on that has the id.
pub open spec fn index_from(ts: Seq<Tree>, id: Seq<char>, i: int) -> Option<int>
    decreases ts.len() - i,
{
    if i >= ts.len() {
        None
    } else if id_of(ts[i]) == id {
        Some(i)
    } else {
        index_from(ts, id, i + 1)
    }
}

/// All edges of a list are well-formed.
pub open spec fn edges_ok(es: Seq<Tree>) -> bool {
    forall|k: int| #![trigger es[k]]
        0 <= k < es.len() ==> text_at(es[k], "source"@) is Some && text_at(es[k], "target"@) is Some
}

/// No two nodes have one id.
pub open spec fn ids_distinct(ts: Seq<Tree>) -> bool {
    forall|i: int, j: int| #![trigger ts[i], ts[j]]
        0 <= i < j < ts.len() ==> id_of(ts[i]) != id_of(ts[j])
}

/// No id holds a dot.
pub open spec fn ids_dotless(ts: Seq<Tree>) -> bool {
    forall|i: int| #![trigger ts[i]] 0 <= i < ts.len() ==> dotless(id_of(ts[i]))
}

/// Each member's parent is there.
pub open spec fn parents_known(ts: Seq<Tree>) -> bool {
    forall|i: int| #![trigger ts[i]]
        0 <= i < ts.len() ==> (parent_of(ts[i]) matches Some(p) ==> index_from(ts, p, 0) is Some)
}

/// Both ends of each edge are there.
pub open spec fn ends_known(ts: Seq<Tree>, es: Seq<Tree>) -> bool {
    forall|k: int| #![trigger es[k]]
        0 <= k < es.len() ==> index_from(ts, text_at(es[k], "source"@)->0, 0) is Some && index_from(
            ts,
            text_at(es[k], "target"@)->0,
            0,
        ) is Some
}

/// A node is a loop or an iteration.
pub open spec fn composite_node(t: Tree) -> bool {
    let kind = text_at(at(t, "data"@)->0, "kind"@)->0;
    kind != "start"@ && kind != "agent"@ && (kind == "loop"@ || kind == "iteration"@)
}

/// Each member is neither a loop nor an iteration, and its parent is one that is no member.
pub open spec fn well_placed(ts: Seq<Tree>) -> bool {
    forall|i: int| #![trigger ts[i]]
        0 <= i < ts.len() ==> (parent_of(ts[i]) matches Some(p) ==> {
            let parent = ts[index_from(ts, p, 0)->0];
            composite_node(parent) && parent_of(parent) is None && !composite_node(ts[i])
        })
}

/// What goes wrong, by the document, for a graph.
pub open spec fn graph_error(t: Tree, default: RetryPolicy) -> Option<DocumentError> {
    match (list_at(t, "nodes"@), list_at(t, "edges"@)) {
        (Some(ts), Some(es)) => match nodes_error(ts, default, ts.len() as int) {
            Some(e) => Some(e),
            None => if !edges_ok(es) {
                Some(DocumentError::Malformed)
            } else if !ids_distinct(ts) {
                Some(DocumentError::DuplicateId)
            } else if !ids_dotless(ts) {
                Some(DocumentError::DottedId)
            } else if !parents_known(ts) || !ends_known(ts, es) {
                Some(DocumentError::UnknownNode)
            } else if !well_placed(ts) {
                Some(DocumentError::Misplaced)
            } else {
                None
            },
        },
        _ => Some(DocumentError::Malformed),
    }
}

/// `n` is node `i` of the nodes that a list describes.
pub open spec fn node_reads(ts: Seq<Tree>, i: int, default: RetryPolicy, n: Node) -> bool {
    &&& n.id@ == id_of(ts[i])
    &&& match parent_of(ts[i]) {
        Some(p) => n.parent matches Some(k) && index_from(ts, p, 0) == Some(k as int),
        None => n.parent is None,
    }
    &&& kind_reads(at(ts[i], "data"@)->0, n.id@, default, n.kind)
}

/// `e` is an edge that `t` describes.
pub open spec fn edge_reads(ts: Seq<Tree>, t: Tree, e: (usize, usize)) -> bool {
    index_from(ts, text_at(t, "source"@)->0, 0) == Some(e.0 as int) && index_from(
        ts,
        text_at(t, "target"@)->0,
        0,
    ) == Some(e.1 as int)
}

/// `g` is the graph that a document describes.
pub open spec fn graph_reads(t: Tree, default: RetryPolicy, g: Graph) -> bool {
    let ts = list_at(t, "nodes"@)->0;
    let es = list_at(t, "edges"@)->0;
    &&& g.nodes@.len() == ts.len()
    &&& g.edges@.len() == es.len()
    &&& forall|i: int| #![trigger g.nodes@[i]]
        0 <= i < ts.len() ==> node_reads(ts, i, default, g.nodes@[i])
    &&& forall|k: int| #![trigger g.edges@[k]]
        0 <= k < es.len() ==> edge_reads(ts, es[k], g.edges@[k])
}

fn has_dot(s: &str) -> (r: bool)
    ensures
        r == !dotless(s@),
{
    let cs = chars_of(s);
    for i in 0..cs.len()
        invariant
            cs@ == s@,
            forall|k: int| 0 <= k < i ==> cs@[k] != '.',
    {
        if cs[i] == '.' {
            assert(s@.contains('.'));
            return true;
        }
    }
    false
}

/// Reads a node, all but its parent, and the parent's id.
fn read_node(j: &Json, default: RetryPolicy) -> (r: Result<(Node, Option<String>), DocumentError>)
    ensures
        match r {
            Ok((n, parent)) => {
                &&& node_error(j@, default) is None
                &&& n.id@ == id_of(j@)
                &&& n.parent is None
                &&& kind_reads(at(j@, "data"@)->0, n.id@, default, n.kind)
                &&& text_view(parent) == parent_of(j@)
            },
            Err(e) => node_error(j@, default) == Some(e),
        },
{
    let (id, data) = match (text_field(j, "id"), j.get("data")) {
        (Some(id), Some(data)) => (id, data),
        _ => {
            return Err(DocumentError::Malformed);
        },
    };
    let parent = text_field(j, "parentId");
    if parent.is_none() && j.get("parentId").is_some() {
        return Err(DocumentError::Malformed);
    }
    match read_kind(data, id.as_str(), default) {
        Ok(kind) => Ok((Node { id, parent: None, kind }, parent)),
        Err(e) => Err(e),
    }
}

fn find_node(nodes: &Vec<Node>, id: &str, Ghost(ts): Ghost<Seq<Tree>>) -> (r: Option<usize>)
    requires
        nodes@.len() == ts.len(),
        forall|k: int| #![trigger nodes@[k]] 0 <= k < ts.len() ==> nodes@[k].id@ == id_of(ts[k]),
    ensures
        match r {
            Some(i) => index_from(ts, id@, 0) == Some(i as int) && i < nodes@.len(),
            None => index_from(ts, id@, 0) is None,
        },
{
    for i in 0..nodes.len()
        invariant
            nodes@.len() == ts.len(),
            forall|k: int| #![trigger nodes@[k]]
                0 <= k < ts.len() ==> nodes@[k].id@ == id_of(ts[k]),
            index_from(ts, id@, 0) == index_from(ts, id@, i as int),
    {
        if same_text(nodes[i].id.as_str(), id) {
            return Some(i);
        }
    }
    None
}

proof fn lemma_nodes_error(ts: Seq<Tree>, default: RetryPolicy, m: int, n: int)
    requires
        0 <= m <= n,
    ensures
        nodes_error(ts, default, m) matches Some(e) ==> nodes_error(ts, default, n) == Some(e),
        nodes_error(ts, default, n) is None && m < n ==> node_error(ts[m], default) is None,
    decreases n,
{
    if m < n {
        lemma_nodes_error(ts, default, m, n - 1);
    }
}

/// The nodes of a list have been read, all but their parents.
spec fn nodes_half_read(
    ts: Seq<Tree>,
    default: RetryPolicy,
    nodes: Seq<Node>,
    parents: Seq<Option<String>>,
    n: int,
) -> bool {
    &&& nodes.len() == n
    &&& parents.len() == n
    &&& forall|k: int| #![trigger nodes[k]]
        0 <= k < n ==> {
            &&& nodes[k].id@ == id_of(ts[k])
            &&& nodes[k].parent is None
            &&& kind_reads(at(ts[k], "data"@)->0, nodes[k].id@, default, nodes[k].kind)
        }
    &&& forall|k: int| #![trigger parents[k]]
        0 <= k < n ==> text_view(parents[k]) == parent_of(ts[k])
}

fn read_nodes(items: &Vec<Json>, default: RetryPolicy) -> (r: Result<
    (Vec<Node>, Vec<Option<String>>),
    DocumentError,
>)
    ensures
        match r {
            Ok((nodes, parents)) => {
                &&& nodes_error(trees_of(items@), default, items@.len() as int) is None
                &&& nodes_half_read(
                    trees_of(items@),
                    default,
                    nodes@,
                    parents@,
                    items@.len() as int,
                )
            },
            Err(e) => nodes_error(trees_of(items@), default, items@.len() as int) == Some(e),
        },
{
    let mut nodes: Vec<Node> = Vec::new();
    let mut parents: Vec<Option<String>> = Vec::new();
    for i in 0..items.len()
        invariant
            nodes_error(trees_of(items@), default, i as int) is None,
            nodes_half_read(trees_of(items@), default, nodes@, parents@, i as int),
    {
        assert(trees_of(items@)[i as int] == items@[i as int]@);
        match read_node(&items[i], default) {
            Ok((node, parent)) => {
                nodes.push(node);
                parents.push(parent);
            },
            Err(e) => {
                proof {
                    lemma_nodes_error(
                        trees_of(items@),
                        default,
                        i + 1,
                        items@.len() as int,
                    );
                }
                return Err(e);
            },
        }
    }
    Ok((nodes, parents))
}

fn read_edges(items: &Vec<Json>) -> (r: Option<Vec<(String, String)>>)
    ensures
        r is Some <==> edges_ok(trees_of(items@)),
        r matches Some(es) ==> es@.len() == items@.len() && forall|k: int| #![trigger es@[k]]
            0 <= k < items@.len() ==> text_at(trees_of(items@)[k], "source"@) == Some(es@[k].0@)
                && text_at(trees_of(items@)[k], "target"@) == Some(es@[k].1@),
{
    let mut es: Vec<(String, String)> = Vec::new();
    for i in 0..items.len()
        invariant
            es@.len() == i,
            forall|k: int| #![trigger es@[k]]
                0 <= k < i ==> text_at(trees_of(items@)[k], "source"@) == Some(es@[k].0@)
                    && text_at(trees_of(items@)[k], "target"@) == Some(es@[k].1@),
            forall|k: int| #![trigger trees_of(items@)[k]]
                0 <= k < i ==> text_at(trees_of(items@)[k], "source"@) is Some && text_at(
                    trees_of(items@)[k],
                    "target"@,
                ) is Some,
    {
        assert(trees_of(items@)[i as int] == items@[i as int]@);
        match (text_field(&items[i], "source"), text_field(&items[i], "target")) {
            (Some(source), Some(target)) => {
                es.push((source, target));
            },
            _ => {
                assert(!edges_ok(trees_of(items@)));
                return None;
            },
        }
    }
    Some(es)
}

fn are_distinct(nodes: &Vec<Node>, Ghost(ts): Ghost<Seq<Tree>>) -> (r: bool)
    requires
        nodes@.len() == ts.len(),
        forall|k: int| #![trigger nodes@[k]] 0 <= k < ts.len() ==> nodes@[k].id@ == id_of(ts[k]),
    ensures
        r == ids_distinct(ts),
{
    for j in 0..nodes.len()
        invariant
            nodes@.len() == ts.len(),
            forall|k: int| #![trigger nodes@[k]]
                0 <= k < ts.len() ==> nodes@[k].id@ == id_of(ts[k]),
            forall|a: int, b: int| #![trigger ts[a], ts[b]]
                0 <= a < b < j ==> id_of(ts[a]) != id_of(ts[b]),
    {
        for i in 0..j
            invariant
                j < nodes@.len(),
                nodes@.len() == ts.len(),
                forall|k: int| #![trigger nodes@[k]]
                    0 <= k < ts.len() ==> nodes@[k].id@ == id_of(ts[k]),
                forall|a: int| #![trigger ts[a]] 0 <= a < i ==> id_of(ts[a]) != id_of(ts[j as int]),
        {
            if same_text(nodes[i].id.as_str(), nodes[j].id.as_str()) {
                assert(id_of(ts[i as int]) == id_of(ts[j as int]));
                return false;
            }
        }
    }
    true
}

fn are_dotless(nodes: &Vec<Node>, Ghost(ts): Ghost<Seq<Tree>>) -> (r: bool)
    requires
        nodes@.len() == ts.len(),
        forall|k: int| #![trigger nodes@[k]] 0 <= k < ts.len() ==> nodes@[k].id@ == id_of(ts[k]),
    ensures
        r == ids_dotless(ts),
{
    for i in 0..nodes.len()
        invariant
            nodes@.len() == ts.len(),
            forall|k: int| #![trigger nodes@[k]]
                0 <= k < ts.len() ==> nodes@[k].id@ == id_of(ts[k]),
            forall|k: int| #![trigger ts[k]] 0 <= k < i ==> dotless(id_of(ts[k])),
    {
        if has_dot(nodes[i].id.as_str()) {
            assert(!dotless(id_of(ts[i as int])));
            return false;
        }
    }
    true
}

fn resolve_parents(
    nodes: Vec<Node>,
    parents: &Vec<Option<String>>,
    Ghost(ts): Ghost<Seq<Tree>>,
    Ghost(default): Ghost<RetryPolicy>,
) -> (r: Option<Vec<Node>>)
    requires
        nodes_half_read(ts, default, nodes@, parents@, ts.len() as int),
    ensures
        r is Some <==> parents_known(ts),
        r matches Some(out) ==> out@.len() == ts.len() && forall|k: int| #![trigger out@[k]]
            0 <= k < ts.len() ==> node_reads(ts, k, default, out@[k]),
{
    let mut nodes = nodes;
    let n: usize = nodes.len();
    for i in 0..n
        invariant
            n == ts.len(),
            nodes@.len() == n,
            parents@.len() == n,
            forall|k: int| #![trigger parents@[k]]
                0 <= k < n ==> text_view(parents@[k]) == parent_of(ts[k]),
            forall|k: int| #![trigger nodes@[k]]
                0 <= k < n ==> nodes@[k].id@ == id_of(ts[k]),
            forall|k: int| #![trigger nodes@[k]]
                0 <= k < i ==> node_reads(ts, k, default, nodes@[k]),
            forall|k: int| #![trigger nodes@[k]]
                i <= k < n ==> nodes@[k].parent is None && kind_reads(
                    at(ts[k], "data"@)->0,
                    nodes@[k].id@,
                    default,
                    nodes@[k].kind,
                ),
            forall|k: int| #![trigger ts[k]]
                0 <= k < i ==> (parent_of(ts[k]) matches Some(p) ==> index_from(ts, p, 0) is Some),
    {
        assert(text_view(parents@[i as int]) == parent_of(ts[i as int]));
        if let Some(p) = &parents[i] {
            match find_node(&nodes, p.as_str(), Ghost(ts)) {
                Some(k) => {
                    nodes[i].parent = Some(k);
                },
                None => {
                    assert(!parents_known(ts));
                    return None;
                },
            }
        }
    }
    Some(nodes)
}

fn resolve_edges(
    nodes: &Vec<Node>,
    es: &Vec<(String, String)>,
    Ghost(ts): Ghost<Seq<Tree>>,
    Ghost(ets): Ghost<Seq<Tree>>,
) -> (r: Option<Vec<(usize, usize)>>)
    requires
        nodes@.len() == ts.len(),
        forall|k: int| #![trigger nodes@[k]] 0 <= k < ts.len() ==> nodes@[k].id@ == id_of(ts[k]),
        es@.len() == ets.len(),
        forall|k: int| #![trigger es@[k]]
            0 <= k < ets.len() ==> text_at(ets[k], "source"@) == Some(es@[k].0@) && text_at(
                ets[k],
                "target"@,
            ) == Some(es@[k].1@),
    ensures
        r is Some <==> ends_known(ts, ets),
        r matches Some(out) ==> out@.len() == ets.len() && forall|k: int| #![trigger out@[k]]
            0 <= k < ets.len() ==> edge_reads(ts, ets[k], out@[k]) && out@[k].0 < ts.len()
                && out@[k].1 < ts.len(),
{
    let mut out: Vec<(usize, usize)> = Vec::new();
    for i in 0..es.len()
        invariant
            nodes@.len() == ts.len(),
            forall|k: int| #![trigger nodes@[k]]
                0 <= k < ts.len() ==> nodes@[k].id@ == id_of(ts[k]),
            es@.len() == ets.len(),
            forall|k: int| #![trigger es@[k]]
                0 <= k < ets.len() ==> text_at(ets[k], "source"@) == Some(es@[k].0@) && text_at(
                    ets[k],
                    "target"@,
                ) == Some(es@[k].1@),
            out@.len() == i,
            forall|k: int| #![trigger out@[k]]
                0 <= k < i ==> edge_reads(ts, ets[k], out@[k]) && out@[k].0 < ts.len()
                    && out@[k].1 < ts.len(),
            forall|k: int| #![trigger ets[k]]
                0 <= k < i ==> index_from(ts, text_at(ets[k], "source"@)->0, 0) is Some
                    && index_from(ts, text_at(ets[k], "target"@)->0, 0) is Some,
    {
        assert(text_at(ets[i as int], "source"@) == Some(es@[i as int].0@));
        match (
            find_node(nodes, es[i].0.as_str(), Ghost(ts)),
            find_node(nodes, es[i].1.as_str(), Ghost(ts)),
        ) {
            (Some(source), Some(target)) => {
                out.push((source, target));
            },
            _ => {
                assert(!ends_known(ts, ets));
                return None;
            },
        }
    }
    Some(out)
}

fn are_well_placed(
    nodes: &Vec<Node>,
    Ghost(ts): Ghost<Seq<Tree>>,
    Ghost(default): Ghost<RetryPolicy>,
) -> (r: bool)
    requires
        nodes@.len() == ts.len(),
        nodes_error(ts, default, ts.len() as int) is None,
        parents_known(ts),
        forall|k: int| #![trigger nodes@[k]]
            0 <= k < ts.len() ==> node_reads(ts, k, default, nodes@[k]),
    ensures
        r == well_placed(ts),
        forall|k: int| #![trigger nodes@[k]]
            0 <= k < ts.len() ==> nodes@[k].kind.composite() == composite_node(ts[k]),
        forall|k: int| #![trigger nodes@[k]]
            0 <= k < ts.len() ==> (nodes@[k].parent matches Some(p) ==> p < ts.len()),
{
    proof {
        assert forall|k: int| #![trigger nodes@[k]] 0 <= k < ts.len() implies {
            &&& nodes@[k].kind.composite() == composite_node(ts[k])
            &&& nodes@[k].parent matches Some(p) ==> p < ts.len()
        } by {
            lemma_nodes_error(ts, default, k, ts.len() as int);
            assert(node_reads(ts, k, default, nodes@[k]));
            if let Some(p) = parent_of(ts[k]) {
                lemma_index_from(ts, p, 0);
            }
        }
    }
    for i in 0..nodes.len()
        invariant
            nodes@.len() == ts.len(),
            forall|k: int| #![trigger nodes@[k]]
                0 <= k < ts.len() ==> node_reads(ts, k, default, nodes@[k]),
            forall|k: int| #![trigger nodes@[k]]
                0 <= k < ts.len() ==> nodes@[k].kind.composite() == composite_node(ts[k]),
            forall|k: int| #![trigger nodes@[k]]
                0 <= k < ts.len() ==> (nodes@[k].parent matches Some(p) ==> p < ts.len()),
            forall|k: int| #![trigger ts[k]]
                0 <= k < i ==> (parent_of(ts[k]) matches Some(p) ==> {
                    let parent = ts[index_from(ts, p, 0)->0];
                    composite_node(parent) && parent_of(parent) is None && !composite_node(ts[k])
                }),
    {
        assert(node_reads(ts, i as int, default, nodes@[i as int]));
        if let Some(p) = nodes[i].parent {
            assert(node_reads(ts, p as int, default, nodes@[p as int]));
            if !nodes[p].kind.is_composite() || nodes[p].parent.is_some()
                || nodes[i].kind.is_composite() {
                assert(!well_placed(ts));
                return false;
            }
        }
    }
    true
}

proof fn lemma_index_from(ts: Seq<Tree>, id: Seq<char>, i: int)
    requires
        0 <= i,
    ensures
        index_from(ts, id, i) matches Some(k) ==> i <= k < ts.len() && id_of(ts[k]) == id,
    decreases ts.len() - i,
{
    if i < ts.len() && id_of(ts[i]) != id {
        lemma_index_from(ts, id, i + 1);
    }
}

proof fn lemma_bindings_owned(ts: Seq<Tree>, id: Seq<char>, bs: Seq<Binding>)
    requires
        bindings_read(ts, id, bs),
    ensures
        bindings_owned(bs, id),
{
    assert forall|k: int| #![trigger bs[k]] 0 <= k < bs.len() implies owned(bs[k].name@, id) by {
        assert(binding_reads(ts[k], id, bs[k]));
        lemma_variable_owned(id, text_at(ts[k], "name"@)->0);
    }
}

proof fn lemma_sets_own(data: Tree, default: RetryPolicy, n: Node)
    requires
        kind_error(data, default) is None,
        kind_reads(data, n.id@, default, n.kind),
    ensures
        n.sets_own(),
{
    match n.kind {
        NodeKind::Loop(c) => {
            let t = at(data, "loopConfig"@)->0;
            let vs = list_at(t, "variables"@)->0;
            assert(loop_reads(t, n.id@, c));
            lemma_bindings_owned(list_at(t, "outputs"@)->0, n.id@, c.outputs@);
            assert forall|k: int| #![trigger c.variables@[k]] 0 <= k < c.variables@.len() implies owned(
                c.variables@[k].name@,
                n.id@,
            ) by {
                assert(loop_variable_reads(vs[k], n.id@, c.variables@[k]));
                lemma_variable_owned(n.id@, text_at(vs[k], "name"@)->0);
            }
        },
        NodeKind::Output(bs) => {
            if let Some(Tree::Array(items)) = at(data, "outputs"@) {
                lemma_bindings_owned(items, n.id@, bs@);
            }
        },
        _ => {},
    }
}

/// Reads the graph that a document describes; agents that say nothing about retries get the given
/// policy.
pub fn read_graph(document: &Json, default: RetryPolicy) -> (r: Result<Graph, DocumentError>)
    ensures
        match r {
            Ok(g) => graph_error(document@, default) is None && graph_reads(document@, default, g)
                && g.wf(),
            Err(e) => graph_error(document@, default) == Some(e),
        },
{
    let (items, edge_items) = match (list_field(document, "nodes"), list_field(document, "edges")) {
        (Some(items), Some(edge_items)) => (items, edge_items),
        _ => {
            return Err(DocumentError::Malformed);
        },
    };
    let ghost ts = trees_of(items@);
    let ghost es = trees_of(edge_items@);
    let (nodes, parents) = match read_nodes(items, default) {
        Ok(read) => read,
        Err(e) => {
            return Err(e);
        },
    };
    let ends = match read_edges(edge_items) {
        Some(ends) => ends,
        None => {
            return Err(DocumentError::Malformed);
        },
    };
    if !are_distinct(&nodes, Ghost(ts)) {
        return Err(DocumentError::DuplicateId);
    }
    if !are_dotless(&nodes, Ghost(ts)) {
        return Err(DocumentError::DottedId);
    }
    let nodes = match resolve_parents(nodes, &parents, Ghost(ts), Ghost(default)) {
        Some(nodes) => nodes,
        None => {
            return Err(DocumentError::UnknownNode);
        },
    };
    let edges = match resolve_edges(&nodes, &ends, Ghost(ts), Ghost(es)) {
        Some(edges) => edges,
        None => {
            return Err(DocumentError::UnknownNode);
        },
    };
    if !are_well_placed(&nodes, Ghost(ts), Ghost(default)) {
        return Err(DocumentError::Misplaced);
    }
    let g = Graph { nodes, edges };
    proof {
        assert forall|i: int| #![trigger g.nodes@[i]] 0 <= i < g.size() implies (
        g.nodes@[i].parent matches Some(p) ==> {
            &&& p < g.size()
            &&& g.nodes@[p as int].kind.composite()
            &&& g.nodes@[p as int].parent is None
            &&& !g.nodes@[i].kind.composite()
        }) by {
            assert(node_reads(ts, i, default, g.nodes@[i]));
            if let Some(p) = g.nodes@[i].parent {
                assert(node_reads(ts, p as int, default, g.nodes@[p as int]));
                assert(parent_of(ts[i]) is Some);
            }
        }
        assert forall|i: int, j: int|
            #![trigger g.nodes@[i], g.nodes@[j]]
            0 <= i < j < g.size() implies g.nodes@[i].id@ != g.nodes@[j].id@ by {
            assert(node_reads(ts, i, default, g.nodes@[i]));
            assert(node_reads(ts, j, default, g.nodes@[j]));
            assert(id_of(ts[i]) != id_of(ts[j]));
        }
        assert forall|i: int| #![trigger g.nodes@[i]] 0 <= i < g.size() implies dotless(
            g.nodes@[i].id@,
        ) && g.nodes@[i].sets_own() by {
            assert(node_reads(ts, i, default, g.nodes@[i]));
            assert(dotless(id_of(ts[i])));
            lemma_nodes_error(ts, default, i, ts.len() as int);
            lemma_sets_own(at(ts[i], "data"@)->0, default, g.nodes@[i]);
        }
        assert forall|k: int| #![trigger g.edges@[k]] 0 <= k < g.edges@.len() implies g.edges@[k].0
            < g.size() && g.edges@[k].1 < g.size() by {
            assert(edge_reads(ts, es[k], g.edges@[k]));
        }
    }
    Ok(g)
}

/// Reads the graph that a document's text describes; agents that say nothing about retries get the
/// default policy.
pub fn parse_graph(text: &str) -> (r: Result<Graph, DocumentError>)
    ensures
        match json_document(text@) {
            None => r == Err::<Graph, DocumentError>(DocumentError::NotJson),
            Some(t) => match r {
                Ok(g) => {
                    &&& graph_error(t, default_retry()) is None
                    &&& graph_reads(t, default_retry(), g)
                    &&& g.wf()
                },
                Err(e) => graph_error(t, default_retry()) == Some(e),
            },
        },
{
    match parse_json(text) {
        Some(document) => read_graph(&document, RetryPolicy::default()),
        None => Err(DocumentError::NotJson),
    }
}

} // verus!
