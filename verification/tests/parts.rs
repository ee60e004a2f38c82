//! Documents, templates, logs and texts.

use serde_json::Value;
use workflow_run::document::parse_graph;
use workflow_run::document::read_graph;
use workflow_run::document::DocumentError;
use workflow_run::failure::structured_output_failure;
use workflow_run::failure::NodeFailure;
use workflow_run::failure::NodeFailureKind;
use workflow_run::graph::NodeKind;
use workflow_run::graph::RetryPolicy;
use workflow_run::json::parse_json;
use workflow_run::json::Json;
use workflow_run::pool::Pool;
use workflow_run::samples::loop_with_checker;
use workflow_run::samples::single_agent_graph;
use workflow_run::sessions::prompted_sessions;
use workflow_run::template::render;
use workflow_run::text::decimal_text;

fn error_of(text: &str) -> Option<DocumentError> {
    parse_graph(text).err()
}

fn with_nodes(nodes: &str, edges: &str) -> String {
    format!("{{\"nodes\":[{nodes}],\"edges\":[{edges}]}}")
}

#[test]
fn the_loop_document_describes_its_graph() {
    let text = loop_with_checker();
    let value: Value = serde_json::from_str(&text).unwrap();
    assert_eq!(value["schemaVersion"], Value::from(2u64));
    assert_eq!(value["nodes"][4]["data"]["containerId"], Value::from("loop"));
    assert_eq!(
        value["nodes"][1]["data"]["loopConfig"]["variables"][0]["initial"]["value"],
        Value::from("seed")
    );
    let graph = parse_graph(&text).ok().unwrap();
    let ids: Vec<&str> = graph.nodes.iter().map(|n| n.id.as_str()).collect();
    assert_eq!(ids, vec!["start", "loop", "entry", "writer", "checker"]);
    let parents: Vec<Option<usize>> = graph.nodes.iter().map(|n| n.parent).collect();
    assert_eq!(parents, vec![None, None, Some(1), Some(1), Some(1)]);
    assert_eq!(graph.edges, vec![(0, 1), (2, 3), (3, 4)]);
    match &graph.nodes[1].kind {
        NodeKind::Loop(config) => {
            assert_eq!(config.max_iterations, 3);
            assert_eq!(config.variables[0].name, "loop.draft");
            assert_eq!(config.variables[0].feedback, "writer.output");
            assert_eq!(config.until[0].variable, "writer.output");
            assert_eq!(config.until[0].value, "done");
            assert_eq!(config.outputs[0].name, "loop.result");
        }
        _ => panic!("a loop was expected"),
    }
}

#[test]
fn the_single_agent_document_holds_the_config() {
    let config = Value::Object(
        vec![("prompt".to_string(), Value::from("go"))]
            .into_iter()
            .collect(),
    );
    assert_eq!(
        single_agent_graph(config),
        "{\"edges\":[{\"source\":\"start\",\"target\":\"worker\"},\
         {\"source\":\"worker\",\"target\":\"output\"}],\
         \"nodes\":[{\"data\":{\"kind\":\"start\"},\"id\":\"start\"},\
         {\"data\":{\"agentConfig\":{\"prompt\":\"go\"},\"kind\":\"agent\"},\"id\":\"worker\"},\
         {\"data\":{\"kind\":\"output\"},\"id\":\"output\"}]}"
    );
}

/// The agent config that a document of one agent was made with, as it is read back.
fn read_back(config: Value) -> Json {
    let document = parse_json(&single_agent_graph(config)).unwrap();
    let nodes = match document.get("nodes") {
        Some(Json::Array(nodes)) => nodes,
        _ => panic!("a list was expected"),
    };
    nodes[1].get("data").unwrap().get("agentConfig").unwrap().copied()
}

#[test]
fn whole_numbers_are_read_back() {
    for n in [-1, -40, i64::MIN] {
        match read_back(Value::from(n)) {
            Json::Number(None, text) => assert_eq!(text, n.to_string()),
            _ => panic!("a negative number was expected"),
        }
    }
    for n in [0, 40, u64::MAX] {
        match read_back(Value::from(n)) {
            Json::Number(Some(m), text) => assert_eq!((m, text), (n, n.to_string())),
            _ => panic!("a whole number was expected"),
        }
    }
    match read_back(Value::from(-5.0)) {
        Json::Number(None, text) => assert_eq!(text, "-5.0"),
        _ => panic!("a fraction was expected"),
    }
}

#[test]
fn agents_that_say_nothing_get_the_given_policy() {
    let text = with_nodes(
        "{\"id\":\"a\",\"data\":{\"kind\":\"agent\",\"agentConfig\":{\"prompt\":\"go\"}}}",
        "",
    );
    let given = RetryPolicy { enabled: false, max_retries: 7, initial_delay_seconds: 1 };
    let document = parse_json(&text).unwrap();
    let graphs = [
        (read_graph(&document, given).ok().unwrap(), given),
        (parse_graph(&text).ok().unwrap(), RetryPolicy::default()),
    ];
    for (graph, policy) in &graphs {
        match &graph.nodes[0].kind {
            NodeKind::Agent(config) => assert_eq!(config.retry, *policy),
            _ => panic!("an agent was expected"),
        }
    }
}

#[test]
fn a_document_without_a_graph_is_refused() {
    assert_eq!(error_of("{"), Some(DocumentError::NotJson));
    assert_eq!(error_of("{\"nodes\":[]}"), Some(DocumentError::Malformed));
    assert_eq!(error_of(&with_nodes("", "")), None);
    assert_eq!(
        error_of(&with_nodes("{\"id\":\"a\"}", "")),
        Some(DocumentError::Malformed)
    );
    assert_eq!(
        error_of(&with_nodes("{\"id\":\"a\",\"data\":{\"kind\":\"dance\"}}", "")),
        Some(DocumentError::Unsupported)
    );
    assert_eq!(
        error_of(&with_nodes("", "{\"source\":\"a\"}")),
        Some(DocumentError::Malformed)
    );
    let start = "{\"id\":\"a\",\"data\":{\"kind\":\"start\"}}";
    assert_eq!(
        error_of(&with_nodes(&format!("{start},{start}"), "")),
        Some(DocumentError::DuplicateId)
    );
    assert_eq!(
        error_of(&with_nodes(&start.replace("\"a\"", "\"a.b\""), "")),
        Some(DocumentError::DottedId)
    );
    assert_eq!(
        error_of(&with_nodes(start, "{\"source\":\"a\",\"target\":\"b\"}")),
        Some(DocumentError::UnknownNode)
    );
    let member = "{\"id\":\"m\",\"parentId\":\"a\",\"data\":{\"kind\":\"start\"}}";
    assert_eq!(error_of(&with_nodes(member, "")), Some(DocumentError::UnknownNode));
    assert_eq!(
        error_of(&with_nodes(&format!("{start},{member}"), "")),
        Some(DocumentError::Misplaced)
    );
}

#[test]
fn placeholders_are_replaced() {
    let mut pool = Pool::new();
    pool.set("a.b".to_string(), Json::Text("x".to_string()));
    pool.set("n".to_string(), Json::count(120));
    pool.set("t".to_string(), Json::Bool(true));
    pool.set("l".to_string(), Json::Array(vec![]));
    let shown = |template: &str| render(template, &pool);
    assert_eq!(shown("no placeholder }} {{ #"), Ok("no placeholder }} {{ #".to_string()));
    assert_eq!(shown("{{#a.b#}}-{{#n#}}-{{#t#}}"), Ok("x-120-true".to_string()));
    assert_eq!(shown("{{#a.b"), Ok("{{#a.b".to_string()));
    assert_eq!(shown("ok {{#c#}} {{#l#}}"), Err("c".to_string()));
    assert_eq!(shown("{{#l#}}"), Err("l".to_string()));
}

#[test]
fn a_later_value_replaces_an_earlier_one() {
    let mut pool = Pool::new();
    pool.set("a".to_string(), Json::count(1));
    pool.set("b".to_string(), Json::count(2));
    pool.set("a".to_string(), Json::count(3));
    assert_eq!(render("{{#a#}}{{#b#}}", &pool), Ok("32".to_string()));
    assert!(matches!(pool.value("c"), Json::Null));
}

#[test]
fn json_is_read_as_it_is_written() {
    let json = parse_json("{\"a\":[null,true,7,-1,\"x\"],\"b\":1,\"b\":2}").unwrap();
    match json.get("a") {
        Some(Json::Array(items)) => {
            assert!(matches!(items[0], Json::Null));
            assert!(matches!(items[1], Json::Bool(true)));
            assert!(matches!(&items[2], Json::Number(Some(7), text) if text == "7"));
            assert!(matches!(&items[3], Json::Number(None, text) if text == "-1"));
            assert!(matches!(&items[4], Json::Text(text) if text == "x"));
        }
        _ => panic!("a list was expected"),
    }
    assert!(matches!(json.get("b"), Some(Json::Number(Some(2), _))));
    assert!(json.get("c").is_none());
    assert!(parse_json("[1,]").is_none());
}

#[test]
fn nesting_is_read_to_its_limit() {
    let deep = |n: usize| format!("{}{}", "[".repeat(n), "]".repeat(n));
    assert!(parse_json(&deep(127)).is_some());
    assert!(parse_json(&deep(128)).is_none());
}

#[test]
fn prompted_sessions_are_read_off_the_log() {
    assert_eq!(
        prompted_sessions("session/new 1\nsession/prompt 1\r\nsession/prompt\n\nsession/prompt b c"),
        vec!["1".to_string(), "b c".to_string()]
    );
    assert!(prompted_sessions("").is_empty());
    assert_eq!(prompted_sessions("session/prompt \n"), vec![String::new()]);
    assert_eq!(prompted_sessions("session/prompt x\r"), vec!["x\r".to_string()]);
}

#[test]
fn failures_say_what_went_wrong() {
    let failure = structured_output_failure("reply is not JSON");
    assert_eq!(failure.kind, NodeFailureKind::StructuredOutput);
    assert_eq!(failure.message, "reply is not JSON");
    assert_eq!(failure.output.as_deref(), Some("plain text"));
    let other = NodeFailure::new(NodeFailureKind::Session, "gone");
    assert_eq!(other.output, None);
}

#[test]
fn numerals_are_decimal() {
    assert_eq!(decimal_text(0), "0");
    assert_eq!(decimal_text(10), "10");
    assert_eq!(decimal_text(u64::MAX), "18446744073709551615");
}
