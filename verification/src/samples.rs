//! Sample workflow documents.

use crate::json::Piece;
use crate::json::Tree;
use crate::json::distinct_fields;
use crate::json::fields_map;
use crate::json::json_document;
use crate::json::json_text;
use crate::json::make_value;
use crate::json::owned_fields;
use crate::json::plain;
use crate::json::print_value;
use crate::json::value_tree;
use crate::json::value_trees;
use crate::text::decimal;
use serde_json::Value;
use vstd::prelude::*;

verus! {

/// An object.
pub open spec fn obj(fields: Seq<(Seq<char>, Tree)>) -> Tree {
    Tree::Object(fields_map(fields))
}

/// A whole number.
pub open spec fn num(n: u64) -> Tree {
    Tree::Number(Some(n), decimal(n as nat))
}

/// The path of the output of the node `id`.
pub open spec fn output_path(id: Seq<char>) -> Tree {
    Tree::Array(seq![Tree::Text(id), Tree::Text("output"@)])
}

/// An edge.
pub open spec fn edge(source: Seq<char>, target: Seq<char>) -> Tree {
    obj(seq![("source"@, Tree::Text(source)), ("target"@, Tree::Text(target))])
}

/// The executor of the sample agents.
pub open spec fn sample_executor() -> Tree {
    obj(seq![("agentCli"@, Tree::Text("open_code"@)), ("modelId"@, Tree::Text("m"@))])
}

/// A retry policy that never retries.
pub open spec fn never_retry() -> Tree {
    obj(
        seq![
            ("enabled"@, Tree::Bool(false)),
            ("maxRetries"@, num(0)),
            ("initialDelaySeconds"@, num(0)),
        ],
    )
}

/// The config of a sample agent.
pub open spec fn sample_config(id: Seq<char>) -> Seq<(Seq<char>, Tree)> {
    seq![("executor"@, sample_executor()), ("prompt"@, Tree::Text(id))]
}

/// An agent with the given config that is a member of `loop`.
pub open spec fn body_agent(id: Seq<char>, config: Seq<(Seq<char>, Tree)>) -> Tree {
    obj(
        seq![
            ("id"@, Tree::Text(id)),
            ("parentId"@, Tree::Text("loop"@)),
            (
                "data"@,
                obj(
                    seq![
                        ("kind"@, Tree::Text("agent"@)),
                        ("containerId"@, Tree::Text("loop"@)),
                        ("agentConfig"@, obj(config)),
                    ],
                ),
            ),
        ],
    )
}

/// At most three rounds, until `writer` answers `done`.
pub open spec fn writer_loop() -> Tree {
    obj(
        seq![
            ("maxIterations"@, num(3)),
            (
                "variables"@,
                Tree::Array(
                    seq![
                        obj(
                            seq![
                                ("name"@, Tree::Text("draft"@)),
                                ("valueType"@, Tree::Text("string"@)),
                                (
                                    "initial"@,
                                    obj(
                                        seq![
                                            ("kind"@, Tree::Text("constant"@)),
                                            ("value"@, Tree::Text("seed"@)),
                                        ],
                                    ),
                                ),
                                ("feedback"@, output_path("writer"@)),
                            ],
                        ),
                    ],
                ),
            ),
            (
                "until"@,
                obj(
                    seq![
                        ("logic"@, Tree::Text("and"@)),
                        (
                            "conditions"@,
                            Tree::Array(
                                seq![
                                    obj(
                                        seq![
                                            ("variableSelector"@, output_path("writer"@)),
                                            ("operator"@, Tree::Text("equals"@)),
                                            ("value"@, Tree::Text("done"@)),
                                        ],
                                    ),
                                ],
                            ),
                        ),
                    ],
                ),
            ),
            (
                "outputs"@,
                Tree::Array(
                    seq![
                        obj(
                            seq![
                                ("name"@, Tree::Text("result"@)),
                                ("variableSelector"@, output_path("writer"@)),
                            ],
                        ),
                    ],
                ),
            ),
        ],
    )
}

/// A loop whose body is `entry`, `writer`, `checker`, in that order; `checker` never retries.
pub open spec fn loop_document() -> Tree {
    obj(
        seq![
            (
                "nodes"@,
                Tree::Array(
                    seq![
                        obj(
                            seq![
                                ("id"@, Tree::Text("start"@)),
                                ("data"@, obj(seq![("kind"@, Tree::Text("start"@))])),
                            ],
                        ),
                        obj(
                            seq![
                                ("id"@, Tree::Text("loop"@)),
                                (
                                    "data"@,
                                    obj(
                                        seq![
                                            ("kind"@, Tree::Text("loop"@)),
                                            ("loopConfig"@, writer_loop()),
                                        ],
                                    ),
                                ),
                            ],
                        ),
                        obj(
                            seq![
                                ("id"@, Tree::Text("entry"@)),
                                ("parentId"@, Tree::Text("loop"@)),
                                (
                                    "data"@,
                                    obj(
                                        seq![
                                            ("kind"@, Tree::Text("start"@)),
                                            ("containerId"@, Tree::Text("loop"@)),
                                        ],
                                    ),
                                ),
                            ],
                        ),
                        body_agent("writer"@, sample_config("writer"@)),
                        body_agent(
                            "checker"@,
                            sample_config("checker"@).push(("retry"@, never_retry())),
                        ),
                    ],
                ),
            ),
            (
                "edges"@,
                Tree::Array(
                    seq![
                        edge("start"@, "loop"@),
                        edge("entry"@, "writer"@),
                        edge("writer"@, "checker"@),
                    ],
                ),
            ),
            ("schemaVersion"@, num(2)),
        ],
    )
}

/// `start`, `worker`, `output`, in that order, where `worker` has the given agent config.
pub open spec fn single_agent_document(agent_config: Tree) -> Tree {
    obj(
        seq![
            (
                "nodes"@,
                Tree::Array(
                    seq![
                        obj(
                            seq![
                                ("id"@, Tree::Text("start"@)),
                                ("data"@, obj(seq![("kind"@, Tree::Text("start"@))])),
                            ],
                        ),
                        obj(
                            seq![
                                ("id"@, Tree::Text("worker"@)),
                                (
                                    "data"@,
                                    obj(
                                        seq![
                                            ("kind"@, Tree::Text("agent"@)),
                                            ("agentConfig"@, agent_config),
                                        ],
                                    ),
                                ),
                            ],
                        ),
                        obj(
                            seq![
                                ("id"@, Tree::Text("output"@)),
                                ("data"@, obj(seq![("kind"@, Tree::Text("output"@))])),
                            ],
                        ),
                    ],
                ),
            ),
            (
                "edges"@,
                Tree::Array(seq![edge("start"@, "worker"@), edge("worker"@, "output"@)]),
            ),
        ],
    )
}

proof fn lemma_field_value(fields: Seq<(Seq<char>, Tree)>, key: Seq<char>) -> (i: int)
    requires
        fields_map(fields).dom().contains(key),
    ensures
        0 <= i < fields.len(),
        fields_map(fields)[key] == fields[i].1,
    decreases fields.len(),
{
    if fields.last().0 == key {
        fields.len() - 1
    } else {
        lemma_field_value(fields.drop_last(), key)
    }
}

/// An object of plain fields is plain.
proof fn lemma_plain(fields: Seq<(Seq<char>, Tree)>, depth: nat)
    requires
        depth > 0,
        forall|i: int| 0 <= i < fields.len() ==> plain((#[trigger] fields[i]).1, (depth - 1) as nat),
    ensures
        plain(obj(fields), depth),
{
    let m = fields_map(fields);
    assert forall|k: Seq<char>| m.dom().contains(k) implies plain(
        #[trigger] m[k],
        (depth - 1) as nat,
    ) by {
        let i = lemma_field_value(fields, k);
        assert(plain(fields[i].1, (depth - 1) as nat));
    }
}

/// The names of the fields of each sample object differ.
pub proof fn lemma_names()
    ensures
        "source"@ != "target"@,
        "id"@ != "data"@,
        "id"@ != "parentId"@,
        "parentId"@ != "data"@,
        "agentCli"@ != "modelId"@,
        "executor"@ != "prompt"@,
        "executor"@ != "retry"@,
        "prompt"@ != "retry"@,
        "kind"@ != "containerId"@,
        "kind"@ != "agentConfig"@,
        "containerId"@ != "agentConfig"@,
        "kind"@ != "loopConfig"@,
        "kind"@ != "value"@,
        "name"@ != "valueType"@,
        "name"@ != "initial"@,
        "name"@ != "feedback"@,
        "valueType"@ != "initial"@,
        "valueType"@ != "feedback"@,
        "initial"@ != "feedback"@,
        "variableSelector"@ != "operator"@,
        "variableSelector"@ != "value"@,
        "operator"@ != "value"@,
        "name"@ != "variableSelector"@,
        "logic"@ != "conditions"@,
        "maxIterations"@ != "variables"@,
        "maxIterations"@ != "until"@,
        "maxIterations"@ != "outputs"@,
        "variables"@ != "until"@,
        "variables"@ != "outputs"@,
        "until"@ != "outputs"@,
        "enabled"@ != "maxRetries"@,
        "enabled"@ != "initialDelaySeconds"@,
        "maxRetries"@ != "initialDelaySeconds"@,
        "nodes"@ != "edges"@,
        "nodes"@ != "schemaVersion"@,
        "edges"@ != "schemaVersion"@,
{
    reveal_strlit("source");
    assert("source"@.len() == 6);
    reveal_strlit("target");
    assert("target"@.len() == 6);
    reveal_strlit("id");
    assert("id"@.len() == 2);
    reveal_strlit("data");
    assert("data"@.len() == 4);
    reveal_strlit("parentId");
    assert("parentId"@.len() == 8);
    reveal_strlit("agentCli");
    assert("agentCli"@.len() == 8);
    reveal_strlit("modelId");
    assert("modelId"@.len() == 7);
    reveal_strlit("executor");
    assert("executor"@.len() == 8);
    reveal_strlit("prompt");
    assert("prompt"@.len() == 6);
    reveal_strlit("retry");
    assert("retry"@.len() == 5);
    reveal_strlit("kind");
    assert("kind"@.len() == 4);
    reveal_strlit("containerId");
    assert("containerId"@.len() == 11);
    reveal_strlit("agentConfig");
    assert("agentConfig"@.len() == 11);
    reveal_strlit("loopConfig");
    assert("loopConfig"@.len() == 10);
    reveal_strlit("value");
    assert("value"@.len() == 5);
    reveal_strlit("name");
    assert("name"@.len() == 4);
    reveal_strlit("valueType");
    assert("valueType"@.len() == 9);
    reveal_strlit("initial");
    assert("initial"@.len() == 7);
    reveal_strlit("feedback");
    assert("feedback"@.len() == 8);
    reveal_strlit("variableSelector");
    assert("variableSelector"@.len() == 16);
    reveal_strlit("operator");
    assert("operator"@.len() == 8);
    reveal_strlit("logic");
    assert("logic"@.len() == 5);
    reveal_strlit("conditions");
    assert("conditions"@.len() == 10);
    reveal_strlit("maxIterations");
    assert("maxIterations"@.len() == 13);
    reveal_strlit("variables");
    assert("variables"@.len() == 9);
    reveal_strlit("until");
    assert("until"@.len() == 5);
    reveal_strlit("outputs");
    assert("outputs"@.len() == 7);
    reveal_strlit("enabled");
    assert("enabled"@.len() == 7);
    reveal_strlit("maxRetries");
    assert("maxRetries"@.len() == 10);
    reveal_strlit("initialDelaySeconds");
    assert("initialDelaySeconds"@.len() == 19);
    reveal_strlit("nodes");
    assert("nodes"@.len() == 5);
    reveal_strlit("edges");
    assert("edges"@.len() == 5);
    reveal_strlit("schemaVersion");
    assert("schemaVersion"@.len() == 13);
    assert("source"@[0] != "target"@[0]);
    assert("containerId"@[0] != "agentConfig"@[0]);
    assert("nodes"@[0] != "edges"@[0]);
}

fn text(s: &str) -> (v: Value)
    ensures
        value_tree(v) == Tree::Text(s@),
{
    make_value(Piece::Text(s.to_owned()))
}

fn number(n: u64) -> (v: Value)
    ensures
        value_tree(v) == num(n),
{
    make_value(Piece::Count(n))
}

fn list(items: Vec<Value>) -> (v: Value)
    ensures
        value_tree(v) == Tree::Array(value_trees(items@)),
{
    make_value(Piece::Array(items))
}

fn object(fields: Vec<(String, Value)>) -> (v: Value)
    requires
        distinct_fields(owned_fields(fields@)),
    ensures
        value_tree(v) == obj(owned_fields(fields@)),
{
    make_value(Piece::Object(fields))
}

fn object_of_one(a: &str, x: Value) -> (v: Value)
    ensures
        value_tree(v) == obj(seq![(a@, value_tree(x))]),
{
    let fields = vec![(a.to_owned(), x)];
    assert(owned_fields(fields@) =~= seq![(a@, value_tree(x))]);
    object(fields)
}

fn object_of_two(a: &str, x: Value, b: &str, y: Value) -> (v: Value)
    requires
        a@ != b@,
    ensures
        value_tree(v) == obj(seq![(a@, value_tree(x)), (b@, value_tree(y))]),
{
    let fields = vec![(a.to_owned(), x), (b.to_owned(), y)];
    assert(owned_fields(fields@) =~= seq![(a@, value_tree(x)), (b@, value_tree(y))]);
    object(fields)
}

fn object_of_three(a: &str, x: Value, b: &str, y: Value, c: &str, z: Value) -> (v: Value)
    requires
        a@ != b@,
        a@ != c@,
        b@ != c@,
    ensures
        value_tree(v) == obj(
            seq![(a@, value_tree(x)), (b@, value_tree(y)), (c@, value_tree(z))],
        ),
{
    let fields = vec![(a.to_owned(), x), (b.to_owned(), y), (c.to_owned(), z)];
    assert(owned_fields(fields@) =~= seq![
        (a@, value_tree(x)),
        (b@, value_tree(y)),
        (c@, value_tree(z)),
    ]);
    object(fields)
}

fn object_of_four(
    a: &str,
    x: Value,
    b: &str,
    y: Value,
    c: &str,
    z: Value,
    d: &str,
    w: Value,
) -> (v: Value)
    requires
        a@ != b@,
        a@ != c@,
        a@ != d@,
        b@ != c@,
        b@ != d@,
        c@ != d@,
    ensures
        value_tree(v) == obj(
            seq![
                (a@, value_tree(x)),
                (b@, value_tree(y)),
                (c@, value_tree(z)),
                (d@, value_tree(w)),
            ],
        ),
{
    let fields = vec![(a.to_owned(), x), (b.to_owned(), y), (c.to_owned(), z), (d.to_owned(), w)];
    assert(owned_fields(fields@) =~= seq![
        (a@, value_tree(x)),
        (b@, value_tree(y)),
        (c@, value_tree(z)),
        (d@, value_tree(w)),
    ]);
    object(fields)
}

fn list_of_one(x: Value) -> (v: Value)
    ensures
        value_tree(v) == Tree::Array(seq![value_tree(x)]),
{
    let items = vec![x];
    assert(value_trees(items@) =~= seq![value_tree(x)]);
    list(items)
}

fn output_path_value(id: &str) -> (v: Value)
    ensures
        value_tree(v) == output_path(id@),
{
    let items = vec![text(id), text("output")];
    assert(value_trees(items@) =~= seq![Tree::Text(id@), Tree::Text("output"@)]);
    list(items)
}

fn edge_value(source: &str, target: &str) -> (v: Value)
    ensures
        value_tree(v) == edge(source@, target@),
{
    proof {
        lemma_names();
    }
    object_of_two("source", text(source), "target", text(target))
}

fn start_node_value() -> (v: Value)
    ensures
        value_tree(v) == obj(
            seq![
                ("id"@, Tree::Text("start"@)),
                ("data"@, obj(seq![("kind"@, Tree::Text("start"@))])),
            ],
        ),
{
    proof {
        lemma_names();
    }
    object_of_two("id", text("start"), "data", object_of_one("kind", text("start")))
}

fn sample_config_fields(id: &str) -> (fields: Vec<(String, Value)>)
    ensures
        owned_fields(fields@) == sample_config(id@),
        distinct_fields(owned_fields(fields@)),
{
    proof {
        lemma_names();
    }
    let executor = object_of_two("agentCli", text("open_code"), "modelId", text("m"));
    let fields = vec![("executor".to_owned(), executor), ("prompt".to_owned(), text(id))];
    assert(owned_fields(fields@) =~= sample_config(id@));
    fields
}

fn body_agent_value(id: &str, config: Vec<(String, Value)>) -> (v: Value)
    requires
        distinct_fields(owned_fields(config@)),
    ensures
        value_tree(v) == body_agent(id@, owned_fields(config@)),
{
    proof {
        lemma_names();
    }
    object_of_three(
        "id",
        text(id),
        "parentId",
        text("loop"),
        "data",
        object_of_three(
            "kind",
            text("agent"),
            "containerId",
            text("loop"),
            "agentConfig",
            object(config),
        ),
    )
}

fn writer_loop_value() -> (v: Value)
    ensures
        value_tree(v) == writer_loop(),
{
    proof {
        lemma_names();
    }
    let draft = object_of_four(
        "name",
        text("draft"),
        "valueType",
        text("string"),
        "initial",
        object_of_two("kind", text("constant"), "value", text("seed")),
        "feedback",
        output_path_value("writer"),
    );
    let done = object_of_three(
        "variableSelector",
        output_path_value("writer"),
        "operator",
        text("equals"),
        "value",
        text("done"),
    );
    let result = object_of_two(
        "name",
        text("result"),
        "variableSelector",
        output_path_value("writer"),
    );
    object_of_four(
        "maxIterations",
        number(3),
        "variables",
        list_of_one(draft),
        "until",
        object_of_two("logic", text("and"), "conditions", list_of_one(done)),
        "outputs",
        list_of_one(result),
    )
}

/// The text of a workflow with a loop: at most three rounds, until `writer` answers `done`, whose
/// body is `entry`, `writer`, `checker`; `checker` never retries, so its failure fails the loop.
#[verifier::rlimit(50)]
pub fn loop_with_checker() -> (document: String)
    ensures
        document@ == json_text(loop_document()),
        json_document(document@) == Some(loop_document()),
{
    proof {
        lemma_names();
    }
    let loop_node = object_of_two(
        "id",
        text("loop"),
        "data",
        object_of_two("kind", text("loop"), "loopConfig", writer_loop_value()),
    );
    let entry = object_of_three(
        "id",
        text("entry"),
        "parentId",
        text("loop"),
        "data",
        object_of_two("kind", text("start"), "containerId", text("loop")),
    );
    let never = object_of_three(
        "enabled",
        make_value(Piece::Bool(false)),
        "maxRetries",
        number(0),
        "initialDelaySeconds",
        number(0),
    );
    let mut checker_config = sample_config_fields("checker");
    let ghost config = owned_fields(checker_config@);
    checker_config.push(("retry".to_owned(), never));
    assert(owned_fields(checker_config@) =~= config.push(("retry"@, never_retry())));
    let nodes = vec![
        start_node_value(),
        loop_node,
        entry,
        body_agent_value("writer", sample_config_fields("writer")),
        body_agent_value("checker", checker_config),
    ];
    let edges = vec![
        edge_value("start", "loop"),
        edge_value("entry", "writer"),
        edge_value("writer", "checker"),
    ];
    let ghost node_trees = value_trees(nodes@);
    let ghost edge_trees = value_trees(edges@);
    let document = object_of_three(
        "nodes",
        list(nodes),
        "edges",
        list(edges),
        "schemaVersion",
        number(2),
    );
    proof {
        assert(node_trees =~= seq![
            node_trees[0],
            node_trees[1],
            node_trees[2],
            node_trees[3],
            node_trees[4],
        ]);
        assert(edge_trees =~= seq![edge_trees[0], edge_trees[1], edge_trees[2]]);
        assert(value_tree(document) == loop_document());
        lemma_loop_document_plain();
    }
    print_value(&document)
}

proof fn lemma_edge_plain(source: Seq<char>, target: Seq<char>, depth: nat)
    requires
        depth > 0,
    ensures
        plain(edge(source, target), depth),
{
    lemma_plain(seq![("source"@, Tree::Text(source)), ("target"@, Tree::Text(target))], depth);
}

proof fn lemma_start_node_plain(kind: Seq<char>, id: Seq<char>, depth: nat)
    requires
        depth > 1,
    ensures
        plain(
            obj(
                seq![
                    ("id"@, Tree::Text(id)),
                    ("data"@, obj(seq![("kind"@, Tree::Text(kind))])),
                ],
            ),
            depth,
        ),
{
    lemma_plain(seq![("kind"@, Tree::Text(kind))], (depth - 1) as nat);
    lemma_plain(
        seq![("id"@, Tree::Text(id)), ("data"@, obj(seq![("kind"@, Tree::Text(kind))]))],
        depth,
    );
}

proof fn lemma_sample_config_plain(id: Seq<char>, depth: nat)
    requires
        depth > 0,
    ensures
        forall|i: int|
            0 <= i < sample_config(id).len() ==> plain((#[trigger] sample_config(id)[i]).1, depth),
{
    lemma_plain(
        seq![("agentCli"@, Tree::Text("open_code"@)), ("modelId"@, Tree::Text("m"@))],
        depth,
    );
}

proof fn lemma_body_agent_plain(id: Seq<char>, config: Seq<(Seq<char>, Tree)>, depth: nat)
    requires
        depth > 2,
        forall|i: int| 0 <= i < config.len() ==> plain((#[trigger] config[i]).1, (depth - 3) as nat),
    ensures
        plain(body_agent(id, config), depth),
{
    lemma_plain(config, (depth - 2) as nat);
    let data = seq![
        ("kind"@, Tree::Text("agent"@)),
        ("containerId"@, Tree::Text("loop"@)),
        ("agentConfig"@, obj(config)),
    ];
    lemma_plain(data, (depth - 1) as nat);
    lemma_plain(
        seq![
            ("id"@, Tree::Text(id)),
            ("parentId"@, Tree::Text("loop"@)),
            ("data"@, obj(data)),
        ],
        depth,
    );
}

proof fn lemma_writer_loop_plain(depth: nat)
    requires
        depth > 4,
    ensures
        plain(writer_loop(), depth),
{
    let path = output_path("writer"@);
    reveal_with_fuel(plain, 2);
    assert(plain(path, (depth - 3) as nat));
    assert(plain(path, (depth - 4) as nat));
    let initial = seq![("kind"@, Tree::Text("constant"@)), ("value"@, Tree::Text("seed"@))];
    lemma_plain(initial, (depth - 3) as nat);
    let draft = seq![
        ("name"@, Tree::Text("draft"@)),
        ("valueType"@, Tree::Text("string"@)),
        ("initial"@, obj(initial)),
        ("feedback"@, path),
    ];
    lemma_plain(draft, (depth - 2) as nat);
    let done = seq![
        ("variableSelector"@, path),
        ("operator"@, Tree::Text("equals"@)),
        ("value"@, Tree::Text("done"@)),
    ];
    lemma_plain(done, (depth - 3) as nat);
    let until = seq![
        ("logic"@, Tree::Text("and"@)),
        ("conditions"@, Tree::Array(seq![obj(done)])),
    ];
    lemma_plain(until, (depth - 1) as nat);
    let result = seq![("name"@, Tree::Text("result"@)), ("variableSelector"@, path)];
    lemma_plain(result, (depth - 2) as nat);
    let all = seq![
        ("maxIterations"@, num(3)),
        ("variables"@, Tree::Array(seq![obj(draft)])),
        ("until"@, obj(until)),
        ("outputs"@, Tree::Array(seq![obj(result)])),
    ];
    assert(plain(all[1].1, (depth - 1) as nat));
    assert(plain(all[3].1, (depth - 1) as nat));
    lemma_plain(all, depth);
}

proof fn lemma_loop_document_plain()
    ensures
        plain(loop_document(), 127),
{
    lemma_start_node_plain("start"@, "start"@, 125);
    lemma_writer_loop_plain(123);
    let loop_data = seq![("kind"@, Tree::Text("loop"@)), ("loopConfig"@, writer_loop())];
    lemma_plain(loop_data, 124);
    let loop_node = seq![("id"@, Tree::Text("loop"@)), ("data"@, obj(loop_data))];
    lemma_plain(loop_node, 125);
    let entry_data = seq![
        ("kind"@, Tree::Text("start"@)),
        ("containerId"@, Tree::Text("loop"@)),
    ];
    lemma_plain(entry_data, 124);
    let entry = seq![
        ("id"@, Tree::Text("entry"@)),
        ("parentId"@, Tree::Text("loop"@)),
        ("data"@, obj(entry_data)),
    ];
    lemma_plain(entry, 125);
    lemma_plain(
        seq![
            ("enabled"@, Tree::Bool(false)),
            ("maxRetries"@, num(0)),
            ("initialDelaySeconds"@, num(0)),
        ],
        122,
    );
    lemma_sample_config_plain("writer"@, 122);
    lemma_body_agent_plain("writer"@, sample_config("writer"@), 125);
    lemma_sample_config_plain("checker"@, 122);
    lemma_body_agent_plain(
        "checker"@,
        sample_config("checker"@).push(("retry"@, never_retry())),
        125,
    );
    lemma_edge_plain("start"@, "loop"@, 125);
    lemma_edge_plain("entry"@, "writer"@, 125);
    lemma_edge_plain("writer"@, "checker"@, 125);
    let fields = seq![
        (
            "nodes"@,
            Tree::Array(
                seq![
                    obj(
                        seq![
                            ("id"@, Tree::Text("start"@)),
                            ("data"@, obj(seq![("kind"@, Tree::Text("start"@))])),
                        ],
                    ),
                    obj(loop_node),
                    obj(entry),
                    body_agent("writer"@, sample_config("writer"@)),
                    body_agent(
                            "checker"@,
                            sample_config("checker"@).push(("retry"@, never_retry())),
                        ),
                ],
            ),
        ),
        (
            "edges"@,
            Tree::Array(
                seq![
                    edge("start"@, "loop"@),
                    edge("entry"@, "writer"@),
                    edge("writer"@, "checker"@),
                ],
            ),
        ),
        ("schemaVersion"@, num(2)),
    ];
    assert(plain(fields[0].1, 126));
    assert(plain(fields[1].1, 126));
    lemma_plain(fields, 127);
}

/// The text of a workflow of one agent, `worker`, with the given agent config.
pub fn single_agent_graph(agent_config: Value) -> (document: String)
    ensures
        document@ == json_text(single_agent_document(value_tree(agent_config))),
        plain(value_tree(agent_config), 123) ==> json_document(document@) == Some(
            single_agent_document(value_tree(agent_config)),
        ),
{
    proof {
        lemma_names();
    }
    let ghost config = value_tree(agent_config);
    let worker = object_of_two(
        "id",
        text("worker"),
        "data",
        object_of_two("kind", text("agent"), "agentConfig", agent_config),
    );
    let output = object_of_two(
        "id",
        text("output"),
        "data",
        object_of_one("kind", text("output")),
    );
    let nodes = vec![start_node_value(), worker, output];
    let edges = vec![edge_value("start", "worker"), edge_value("worker", "output")];
    let ghost node_trees = value_trees(nodes@);
    let ghost edge_trees = value_trees(edges@);
    let document = object_of_two("nodes", list(nodes), "edges", list(edges));
    proof {
        assert(node_trees =~= seq![node_trees[0], node_trees[1], node_trees[2]]);
        assert(edge_trees =~= seq![edge_trees[0], edge_trees[1]]);
        assert(value_tree(document) == single_agent_document(config));
        if plain(config, 123) {
            lemma_single_agent_plain(config);
        }
    }
    print_value(&document)
}

proof fn lemma_single_agent_plain(config: Tree)
    requires
        plain(config, 123),
    ensures
        plain(single_agent_document(config), 127),
{
    lemma_start_node_plain("start"@, "start"@, 125);
    lemma_start_node_plain("output"@, "output"@, 125);
    let data = seq![("kind"@, Tree::Text("agent"@)), ("agentConfig"@, config)];
    lemma_plain(data, 124);
    let worker = seq![("id"@, Tree::Text("worker"@)), ("data"@, obj(data))];
    lemma_plain(worker, 125);
    lemma_edge_plain("start"@, "worker"@, 125);
    lemma_edge_plain("worker"@, "output"@, 125);
    let fields = seq![
        (
            "nodes"@,
            Tree::Array(
                seq![
                    obj(
                        seq![
                            ("id"@, Tree::Text("start"@)),
                            ("data"@, obj(seq![("kind"@, Tree::Text("start"@))])),
                        ],
                    ),
                    obj(worker),
                    obj(
                        seq![
                            ("id"@, Tree::Text("output"@)),
                            ("data"@, obj(seq![("kind"@, Tree::Text("output"@))])),
                        ],
                    ),
                ],
            ),
        ),
        (
            "edges"@,
            Tree::Array(seq![edge("start"@, "worker"@), edge("worker"@, "output"@)]),
        ),
    ];
    assert(plain(fields[0].1, 126));
    assert(plain(fields[1].1, 126));
    lemma_plain(fields, 127);
}

} // verus!
