use rule_rs::chain::subchain_target_of;
use rule_rs::components::{
    FilterConfig, FilterNode, ForkNode, JoinConfig, JoinNode, JsFunctionConfig, JsFunctionNode, LogConfig, LogNode,
    ScriptConfig, ScriptNode, SubchainConfig, SwitchCase, SwitchConfig, SwitchNode, TransformConfig, TransformJsConfig, TransformNode, DelayConfig,
    DelayNode,
};
use rule_rs::dispatch::{Step, StepAction};
use rule_rs::engine::{RemovalStep, RuleEngine};
use rule_rs::integrations::{reply_outcome, delay_until, RestClientConfig, ScheduleConfig, ScheduleNode, WeatherConfig};
use rule_rs::flow::{decimal_text, BranchResults, JoinOutcome, JoinState};
use rule_rs::json::{write_json, JsonValue, StringMap};
use rule_rs::programs::{condition_source, script_source, transform_source};
use rule_rs::registry::NodeRegistry;
use rule_rs::template::substitute_str;
use rule_rs::types::{
    CommonConfig, Connection, ExecutionContext, Message, Metadata, Node, NodeDescriptor, NodeType, RuleChain, RuleError,
};

const A: u128 = 0xa0000000_0000_4000_8000_000000000001;
const B: u128 = 0xb0000000_0000_4000_8000_000000000002;
const C: u128 = 0xc0000000_0000_4000_8000_000000000003;

fn uuid_text(id: u128) -> String {
    let h = format!("{:032x}", id);
    format!("{}-{}-{}-{}-{}", &h[0..8], &h[8..12], &h[12..16], &h[16..20], &h[20..32])
}

fn s(text: &str) -> String {
    text.to_string()
}

fn num(text: &str) -> JsonValue {
    JsonValue::Number(s(text))
}

fn obj(members: Vec<(&str, JsonValue)>) -> JsonValue {
    JsonValue::Object(members.into_iter().map(|(k, v)| (s(k), v)).collect())
}

fn node(id: u128, chain_id: u128, kind: &str, config: JsonValue) -> Node {
    Node { id, chain_id, kind: s(kind), config }
}

fn conn(from_id: u128, to_id: u128, label: &str) -> Connection {
    Connection { from_id, to_id, label: s(label) }
}

fn chain(id: u128, name: &str, root: bool, nodes: Vec<Node>, connections: Vec<Connection>) -> RuleChain {
    RuleChain {
        id,
        name: s(name),
        root,
        nodes,
        connections,
        metadata: Metadata { version: 0, created_at: 0, updated_at: 0 },
    }
}

fn message(data: JsonValue) -> Message {
    Message { id: 42, msg_type: s("test"), metadata: StringMap::new(), data, timestamp: 7 }
}

fn member<'a>(v: &'a JsonValue, key: &str) -> &'a JsonValue {
    v.get(key).expect("member present")
}

/// A chain `start -> subchain(target)`.
fn calling_chain(id: u128, name: &str, target: u128) -> RuleChain {
    let start = id + 10;
    let sub = id + 11;
    chain(
        id,
        name,
        true,
        vec![
            node(start, id, "start", obj(vec![])),
            node(sub, id, "subchain", obj(vec![("chain_id", JsonValue::Str(uuid_text(target)))])),
        ],
        vec![conn(start, sub, "success")],
    )
}

#[test]
fn simple_linear_chain() {
    let mut engine = RuleEngine::new();
    let (start, script, log) = (1u128, 2u128, 3u128);
    let c = chain(
        A,
        "linear",
        true,
        vec![
            node(start, A, "start", obj(vec![])),
            node(script, A, "script", obj(vec![("script", JsonValue::Str(s("return {value: msg.data.value + 1}")))])),
            node(log, A, "log", obj(vec![])),
        ],
        vec![conn(start, script, "success"), conn(script, log, "success")],
    );
    let v0 = engine.get_current_version();
    assert_eq!(engine.load_chain(c), Ok(A));
    assert_eq!(engine.get_current_version(), v0 + 1);
    assert_eq!(engine.get_chain(A).unwrap().metadata.version, v0);

    let loaded = engine.entry_chain(A).unwrap();
    let ctx = ExecutionContext::new(message(obj(vec![("value", num("1"))])));
    assert_eq!(loaded.get_start_node().unwrap().unwrap().id, start);
    assert_eq!(loaded.get_next_node(start, &ctx).unwrap().unwrap().id, script);
    assert_eq!(loaded.get_next_node(script, &ctx).unwrap().unwrap().id, log);
    assert!(loaded.get_next_node(log, &ctx).unwrap().is_none());

    // The script computed {value: 2}; the node keeps the message's identity.
    let script_node = ScriptNode::new(ScriptConfig { script: s("return {value: msg.data.value + 1}"), output_type: None });
    let out = script_node.result_message(ctx.msg, obj(vec![("value", num("2"))]));
    assert_eq!(out.id, 42);
    assert_eq!(out.msg_type, "test");
    match member(&out.data, "value") {
        JsonValue::Number(t) => assert_eq!(t, "2"),
        other => panic!("unexpected {:?}", other),
    }

    // Reloading the same id replaces the chain and takes the next version.
    let again = chain(A, "linear again", true, vec![node(start, A, "start", obj(vec![]))], vec![]);
    assert_eq!(engine.load_chain(again), Ok(A));
    assert_eq!(engine.get_current_version(), v0 + 2);
    assert_eq!(engine.get_loaded_chains().len(), 1);
    assert_eq!(engine.get_chain(A).unwrap().name, "linear again");
    assert_eq!(engine.get_chain(A).unwrap().metadata.version, v0 + 1);
}

#[test]
fn filter_reject() {
    let filter = FilterNode::new(FilterConfig {
        condition: s("value < 10"),
        js_script: None,
        common: CommonConfig { node_type: NodeType::Middle },
    });
    assert_eq!(filter.condition_expression(), "msg.data.value < 10");
    let rejected = filter.decide(false, message(obj(vec![("value", num("20"))])));
    assert_eq!(rejected.err(), Some(RuleError::FilterReject));
    let passed = filter.decide(true, message(obj(vec![("value", num("5"))]))).unwrap();
    assert_eq!(passed.id, 42);
}

#[test]
fn switch_routing() {
    let case = |name: &str, condition: &str| SwitchCase { name: s(name), condition: s(condition), description: s("") };
    let switch = SwitchNode::new(SwitchConfig {
        cases: vec![case("high_temp", "msg.data.temp > 30"), case("low_temp", "msg.data.temp < 10")],
        default_next: Some(s("normal_temp")),
        common: CommonConfig { node_type: NodeType::Middle },
    });
    let (start, sw, high, low, normal) = (1u128, 2u128, 3u128, 4u128, 5u128);
    let c = chain(
        A,
        "switch",
        true,
        vec![
            node(start, A, "start", obj(vec![])),
            node(sw, A, "switch", obj(vec![])),
            node(high, A, "log", obj(vec![])),
            node(low, A, "log", obj(vec![])),
            node(normal, A, "log", obj(vec![])),
        ],
        vec![
            conn(start, sw, "success"),
            conn(sw, high, "high_temp"),
            conn(sw, low, "low_temp"),
            conn(sw, normal, "normal_temp"),
        ],
    );
    let mut engine = RuleEngine::new();
    assert_eq!(engine.load_chain(c), Ok(A));
    let loaded = engine.get_chain(A).unwrap();

    // temp 35: the first case holds; temp 5: the second; temp 25: none.
    for (verdicts, branch, target) in [
        (vec![true], "high_temp", high),
        (vec![false, true], "low_temp", low),
        (vec![false, false], "normal_temp", normal),
    ] {
        let chosen = switch.route(&verdicts);
        assert_eq!(chosen.as_deref(), Some(branch));
        let tagged = switch.tag(message(obj(vec![])), chosen);
        assert_eq!(tagged.metadata.get("branch_name").as_deref(), Some(branch));
        let ctx = ExecutionContext::new(tagged);
        let next = loaded.get_next_node(sw, &ctx).unwrap().unwrap();
        assert_eq!(next.id, target);
        assert_eq!(ctx.msg.metadata.get("branch_name").as_deref(), Some(branch));
    }
    // Evaluation stopped before the last case: no default yet.
    assert_eq!(switch.route(&vec![false]), None);
}

#[test]
fn chain_level_cycle() {
    let mut engine = RuleEngine::new();
    assert_eq!(engine.load_chain(calling_chain(A, "A", B)), Ok(A));
    assert_eq!(engine.load_chain(calling_chain(B, "B", C)), Ok(B));
    let v = engine.get_current_version();
    match engine.load_chain(calling_chain(C, "C", A)) {
        Err(RuleError::CircularDependency(text)) => assert!(text.contains("A -> B -> C -> A"), "{}", text),
        other => panic!("unexpected {:?}", other),
    }
    let ids: Vec<u128> = engine.get_loaded_chains().iter().map(|c| c.id).collect();
    assert_eq!(ids, vec![A, B]);
    assert_eq!(engine.get_current_version(), v);
}

#[test]
fn node_level_cycle() {
    let mut engine = RuleEngine::new();
    let (start, t1, t2) = (1u128, 2u128, 3u128);
    let c = chain(
        A,
        "loop",
        true,
        vec![
            node(start, A, "start", obj(vec![])),
            node(t1, A, "transform", obj(vec![])),
            node(t2, A, "script", obj(vec![])),
        ],
        vec![conn(start, t1, "success"), conn(t1, t2, "success"), conn(t2, t1, "success")],
    );
    match engine.load_chain(c) {
        Err(RuleError::CircularDependency(text)) => {
            let expected = format!("{} -> {} -> {}", uuid_text(t1), uuid_text(t2), uuid_text(t1));
            assert!(text.contains(&expected), "{}", text)
        }
        other => panic!("unexpected {:?}", other),
    }
    assert!(engine.get_loaded_chains().is_empty());
}

#[test]
fn acyclic_chains_all_load() {
    let mut engine = RuleEngine::new();
    assert_eq!(engine.load_chain(calling_chain(A, "A", B)), Ok(A));
    assert_eq!(engine.load_chain(calling_chain(B, "B", C)), Ok(B));
    let leaf = chain(C, "C", true, vec![node(C + 10, C, "start", obj(vec![]))], vec![]);
    assert_eq!(engine.load_chain(leaf), Ok(C));
    assert_eq!(engine.get_loaded_chains().len(), 3);
}

#[test]
fn structural_errors_are_config_errors() {
    let mut engine = RuleEngine::new();
    let empty = chain(A, "empty", true, vec![], vec![]);
    assert!(matches!(engine.load_chain(empty), Err(RuleError::ConfigError(_))));
    let not_head = chain(A, "no head", true, vec![node(1, A, "log", obj(vec![]))], vec![]);
    assert!(matches!(engine.load_chain(not_head), Err(RuleError::ConfigError(_))));
    let unknown = chain(A, "unknown", true, vec![node(1, A, "start", obj(vec![])), node(2, A, "nope", obj(vec![]))], vec![
        conn(1, 2, "success"),
    ]);
    assert!(matches!(engine.load_chain(unknown), Err(RuleError::ConfigError(_))));
    let into_head = chain(A, "into head", true, vec![node(1, A, "start", obj(vec![])), node(2, A, "script", obj(vec![]))], vec![
        conn(1, 2, "success"),
        conn(2, 1, "success"),
    ]);
    assert!(matches!(engine.load_chain(into_head), Err(RuleError::ConfigError(_))));
    let out_of_tail = chain(A, "out of tail", true, vec![node(1, A, "start", obj(vec![])), node(2, A, "log", obj(vec![])), node(3, A, "script", obj(vec![]))], vec![
        conn(1, 2, "success"),
        conn(2, 3, "success"),
    ]);
    assert!(matches!(engine.load_chain(out_of_tail), Err(RuleError::ConfigError(_))));
    let dangling = chain(A, "dangling", true, vec![node(1, A, "start", obj(vec![]))], vec![conn(1, 9, "success")]);
    assert!(matches!(engine.load_chain(dangling), Err(RuleError::ConfigError(_))));
    assert!(engine.get_loaded_chains().is_empty());
}

#[test]
fn entry_chain_must_be_loaded_root() {
    let mut engine = RuleEngine::new();
    assert_eq!(engine.entry_chain(A).err(), Some(RuleError::ChainNotFound(A)));
    let inner = chain(A, "inner", false, vec![node(1, A, "start", obj(vec![]))], vec![]);
    assert_eq!(engine.load_chain(inner), Ok(A));
    assert!(matches!(engine.entry_chain(A), Err(RuleError::ConfigError(_))));
}

#[test]
fn next_node_falls_back_to_first_edge() {
    let c = chain(
        A,
        "fallback",
        true,
        vec![node(1, A, "start", obj(vec![])), node(2, A, "log", obj(vec![])), node(3, A, "log", obj(vec![]))],
        vec![conn(1, 2, "success"), conn(1, 3, "other")],
    );
    let mut msg = message(obj(vec![]));
    msg.metadata.insert(s("branch_name"), s("missing"));
    let ctx = ExecutionContext::new(msg);
    assert_eq!(c.get_next_node(1, &ctx).unwrap().unwrap().id, 2);
    let mut msg = message(obj(vec![]));
    msg.metadata.insert(s("branch_name"), s("other"));
    let ctx = ExecutionContext::new(msg);
    assert_eq!(c.get_next_node(1, &ctx).unwrap().unwrap().id, 3);
    let broken = chain(A, "broken", true, vec![node(1, A, "start", obj(vec![]))], vec![conn(1, 9, "success")]);
    assert!(matches!(broken.get_next_node(1, &ctx), Err(RuleError::ConfigError(_))));
}

#[test]
fn fork_join() {
    let (fork_id, t1, t2, join_id) = (1u128, 2u128, 3u128, 4u128);
    let conns = vec![
        conn(fork_id, t1, "success"),
        conn(fork_id, t2, "success"),
        conn(t1, join_id, "success"),
        conn(t2, join_id, "success"),
    ];
    let input = message(obj(vec![("value", num("0"))]));
    let copies = ForkNode::new().branches(fork_id, &conns, &input);
    assert_eq!(copies.len(), 2);
    assert_eq!(copies[0].0, t1);
    assert_eq!(copies[1].0, t2);
    assert_eq!(copies[0].1.metadata.get("branch_id").as_deref(), Some("0"));
    assert_eq!(copies[1].1.metadata.get("branch_id").as_deref(), Some("1"));
    assert_eq!(copies[1].1.metadata.get("is_branch").as_deref(), Some("true"));

    let transform = |value: &str| {
        TransformNode::new(TransformConfig {
            template: obj(vec![("value", JsonValue::Str(s(value)))]),
            common: CommonConfig { node_type: NodeType::Middle },
        })
    };
    let mut copies = copies.into_iter();
    let b1 = transform("branch1").transform(copies.next().unwrap().1);
    let b2 = transform("branch2").transform(copies.next().unwrap().1);
    assert_eq!(b1.id, 42);
    assert_eq!(b2.id, 42);

    let join = JoinNode::new(JoinConfig { timeout: 30, success_branch: None, error_branch: None, common: CommonConfig {
        node_type: NodeType::Middle,
    } });
    let mut state = JoinState::new();
    match join.handle_arrival(&mut state, join_id, &conns, b2) {
        JoinOutcome::Waiting(w) => assert_eq!(w.id, 42),
        other => panic!("unexpected {:?}", other),
    }
    assert_eq!(state.waiting_count(join_id, 42), 1);
    let merged = match join.handle_arrival(&mut state, join_id, &conns, b1) {
        JoinOutcome::Merged(m) => m,
        other => panic!("unexpected {:?}", other),
    };
    assert_eq!(merged.id, 42);
    assert_eq!(state.waiting_count(join_id, 42), 0);
    let branches = match member(&merged.data, "branches") {
        JsonValue::Array(items) => items,
        other => panic!("unexpected {:?}", other),
    };
    assert_eq!(branches.len(), 2);
    let mut values: Vec<String> = branches
        .iter()
        .map(|b| match member(member(b, "data"), "value") {
            JsonValue::Str(t) => t.clone(),
            other => panic!("unexpected {:?}", other),
        })
        .collect();
    values.sort();
    assert_eq!(values, vec![s("branch1"), s("branch2")]);
}

#[test]
fn join_keys_by_node_and_message() {
    let conns = vec![conn(1, 9, "success"), conn(2, 9, "success")];
    let join = JoinNode::new(JoinConfig { timeout: 30, success_branch: Some(s("done")), error_branch: None, common: CommonConfig {
        node_type: NodeType::Middle,
    } });
    let mut state = JoinState::new();
    let mut other = message(obj(vec![]));
    other.id = 43;
    assert!(matches!(join.handle_arrival(&mut state, 9, &conns, message(obj(vec![]))), JoinOutcome::Waiting(_)));
    assert!(matches!(join.handle_arrival(&mut state, 9, &conns, other), JoinOutcome::Waiting(_)));
    match join.handle_arrival(&mut state, 9, &conns, message(obj(vec![]))) {
        JoinOutcome::Merged(m) => assert_eq!(m.metadata.get("branch_name").as_deref(), Some("done")),
        other => panic!("unexpected {:?}", other),
    }
    assert_eq!(state.waiting_count(9, 43), 1);
    assert_eq!(state.waiting_count(9, 42), 0);
}

#[test]
fn remove_under_load() {
    let mut engine = RuleEngine::new();
    let c = chain(A, "slow", true, vec![node(1, A, "start", obj(vec![])), node(2, A, "delay", obj(vec![]))], vec![]);
    assert_eq!(engine.load_chain(c), Ok(A));
    for _ in 0..5 {
        engine.increment_counter(A);
    }
    assert_eq!(engine.get_execution_count(A), 5);
    assert_eq!(engine.removal_step(A, 100), RemovalStep::Wait);
    assert_eq!(engine.removal_step(A, 5000), RemovalStep::TimedOut);
    assert!(matches!(engine.remove_chain(A), Err(RuleError::ConfigError(_))));
    assert!(engine.get_chain(A).is_some());
    for _ in 0..5 {
        engine.decrement_counter(A);
    }
    engine.decrement_counter(A);
    assert_eq!(engine.get_execution_count(A), 0);
    assert_eq!(engine.removal_step(A, 1000), RemovalStep::Remove);
    assert_eq!(engine.remove_chain(A), Ok(()));
    assert_eq!(engine.entry_chain(A).err(), Some(RuleError::ChainNotFound(A)));
    assert_eq!(engine.remove_chain(A), Err(RuleError::ChainNotFound(A)));
}

#[test]
fn referenced_chain_cannot_be_removed() {
    let mut engine = RuleEngine::new();
    assert_eq!(engine.load_chain(calling_chain(A, "A", B)), Ok(A));
    let leaf = chain(B, "B", false, vec![node(B + 10, B, "start", obj(vec![]))], vec![]);
    assert_eq!(engine.load_chain(leaf), Ok(B));
    assert!(matches!(engine.check_removable(B), Err(RuleError::ConfigError(_))));
    assert!(matches!(engine.remove_chain(B), Err(RuleError::ConfigError(_))));
    assert_eq!(engine.remove_chain(A), Ok(()));
    assert_eq!(engine.remove_chain(B), Ok(()));
}

#[test]
fn subchain_target_parses_uuid() {
    let n = node(1, A, "subchain", obj(vec![("chain_id", JsonValue::Str(uuid_text(B)))]));
    assert_eq!(subchain_target_of(&n), Some(B));
    let bad = node(1, A, "subchain", obj(vec![("chain_id", JsonValue::Str(s("not a uuid")))]));
    assert_eq!(subchain_target_of(&bad), None);
    let other = node(1, A, "script", obj(vec![("chain_id", JsonValue::Str(uuid_text(B)))]));
    assert_eq!(subchain_target_of(&other), None);
}

#[test]
fn template_substitution() {
    let mut msg = message(obj(vec![("value", num("1")), ("nested", obj(vec![("name", JsonValue::Str(s("x")))])), ("flag", JsonValue::Bool(true))]));
    msg.id = A;
    assert_eq!(substitute_str("v=${msg.data.value}", &msg), "v=1");
    assert_eq!(substitute_str("${msg.data.nested.name}/${msg.data.flag}", &msg), "x/true");
    assert_eq!(substitute_str("[${msg.data.missing}]", &msg), "[]");
    assert_eq!(substitute_str("${msg.type}", &msg), "test");
    assert_eq!(substitute_str("${msg.id}", &msg), uuid_text(A));
    assert_eq!(substitute_str("open ${msg.type", &msg), "open ${msg.type");
    let log = LogNode::new(LogConfig { template: s("value is ${msg.data.value}") });
    assert_eq!(log.format_message(&msg), "value is 1");
}

#[test]
fn template_substitution_is_idempotent() {
    let msg = message(obj(vec![("value", JsonValue::Str(s("plain")))]));
    let once = substitute_str("a ${msg.data.value} b ${msg.type}", &msg);
    let twice = substitute_str(&once, &msg);
    assert_eq!(once, "a plain b test");
    assert_eq!(once, twice);
}

#[test]
fn transform_keeps_message_id() {
    let t = TransformNode::new(TransformConfig {
        template: obj(vec![("greeting", JsonValue::Str(s("hi ${msg.data.name}"))), ("n", num("3"))]),
        common: CommonConfig { node_type: NodeType::Middle },
    });
    let out = t.transform(message(obj(vec![("name", JsonValue::Str(s("bob")))])));
    assert_eq!(out.id, 42);
    assert_eq!(out.timestamp, 7);
    match member(&out.data, "greeting") {
        JsonValue::Str(g) => assert_eq!(g, "hi bob"),
        other => panic!("unexpected {:?}", other),
    }
    assert!(matches!(member(&out.data, "n"), JsonValue::Number(t) if t == "3"));
}

#[test]
fn function_names_are_mangled() {
    let config = JsFunctionConfig {
        functions: vec![(s("helper"), s("return 1;")), (s("main"), s("return helper(msg);"))],
        main: s("main"),
        chain_id: s("c1"),
        node_id: s("n1"),
        common: CommonConfig { node_type: NodeType::Middle },
    };
    let f = JsFunctionNode::new(config.clone());
    assert_eq!(f.replace_function_names("return helper(msg) + helper(2);", &config), "return helper_c1_n1(msg) + helper_c1_n1(2);");
    assert_eq!(f.replace_function_names("return 0;", &config), "return 0;");
    assert_eq!(f.mangled_name("main"), "main_c1_n1");
}

#[test]
fn registry_replaces_and_reports() {
    let mut reg = NodeRegistry::new();
    reg.register(s("upper"), Some(NodeDescriptor { kind: s("upper"), name: s("Upper"), description: s("d"), node_type: NodeType::Middle }));
    reg.register(s("broken"), None);
    assert_eq!(reg.role("upper"), Some(NodeType::Middle));
    assert_eq!(reg.role("broken"), None);
    assert_eq!(reg.role("absent"), None);
    reg.register(s("upper"), Some(NodeDescriptor { kind: s("other"), name: s("Upper"), description: s("d"), node_type: NodeType::Tail }));
    assert_eq!(reg.role("upper"), Some(NodeType::Tail));
    assert_eq!(reg.get_descriptor("upper").unwrap().kind, "upper");
    assert_eq!(reg.get_registered_types(), vec![s("upper"), s("broken")]);
    assert_eq!(reg.get_descriptors().len(), 1);
    let builtin = NodeRegistry::builtin();
    assert_eq!(builtin.role("start"), Some(NodeType::Head));
    assert_eq!(builtin.role("delay"), Some(NodeType::Head));
    assert_eq!(builtin.role("schedule"), Some(NodeType::Head));
    assert_eq!(builtin.role("log"), Some(NodeType::Tail));
    assert_eq!(builtin.role("join"), Some(NodeType::Middle));
    assert_eq!(builtin.get_registered_types().len(), 14);
}

#[test]
fn decimal_and_delay() {
    assert_eq!(decimal_text(0), "0");
    assert_eq!(decimal_text(1207), "1207");
    let once = DelayNode::new(DelayConfig { delay_ms: 10, periodic: false, period_count: 0 });
    assert!(once.send_again(0));
    assert!(!once.send_again(1));
    let thrice = DelayNode::new(DelayConfig { delay_ms: 10, periodic: true, period_count: 3 });
    assert!(thrice.send_again(2));
    assert!(!thrice.send_again(3));
    let forever = DelayNode::new(DelayConfig { delay_ms: 10, periodic: true, period_count: 0 });
    assert!(forever.send_again(1000));
}

#[test]
fn script_output_type() {
    let typed = ScriptNode::new(ScriptConfig { script: s("return msg;"), output_type: Some(s("out")) });
    let out = typed.result_message(message(obj(vec![])), JsonValue::Null);
    assert_eq!(out.msg_type, "out");
    assert_eq!(out.id, 42);
}

#[test]
fn message_copies_and_fresh_ids() {
    let a = Message::new("t", obj(vec![("k", JsonValue::Array(vec![num("1"), JsonValue::Null]))]));
    let b = Message::new("t", JsonValue::Null);
    assert_ne!(a.id, b.id);
    let c = a.duplicate();
    assert_eq!(c.id, a.id);
    assert_eq!(format!("{:?}", c.data), format!("{:?}", a.data));
}

#[test]
fn schedule_parses_cron() {
    let every_second = ScheduleNode::new(ScheduleConfig::default_config()).unwrap();
    let wait = every_second.wait_ms(1_700_000_000_123).unwrap();
    assert!(wait <= 1000, "{}", wait);
    let bad = ScheduleConfig { cron: s("not a cron line"), timezone_offset: 0, common: CommonConfig { node_type: NodeType::Head } };
    assert!(matches!(ScheduleNode::new(bad), Err(RuleError::ConfigError(_))));
    assert_eq!(delay_until(1500, 1000), 500);
    assert_eq!(delay_until(900, 1000), 0);
    assert_eq!(delay_until(i64::MAX, i64::MIN), u64::MAX);
}

#[test]
fn rest_client_outcome_picks_branch() {
    let config = RestClientConfig {
        url: s("http://localhost"),
        method: s("GET"),
        headers: None,
        timeout_ms: None,
        success_branch: Some(s("ok")),
        error_branch: Some(s("failed")),
    };
    let good = config.outcome(message(obj(vec![])), Ok(obj(vec![("status", num("200"))])));
    assert_eq!(good.id, 42);
    assert_eq!(good.msg_type, "http_response");
    assert_eq!(good.metadata.get("branch_name").as_deref(), Some("ok"));
    let bad = config.outcome(message(obj(vec![])), Err(s("timeout")));
    assert_eq!(bad.msg_type, "test");
    assert_eq!(bad.metadata.get("error").as_deref(), Some("timeout"));
    assert_eq!(bad.metadata.get("branch_name").as_deref(), Some("failed"));
}

#[test]
fn node_type_by_name() {
    assert_eq!(node(1, A, "log", obj(vec![])).get_node_type(), Ok(NodeType::Tail));
    assert_eq!(node(1, A, "schedule", obj(vec![])).get_node_type(), Ok(NodeType::Head));
    assert_eq!(node(1, A, "fork", obj(vec![])).get_node_type(), Ok(NodeType::Middle));
}

#[test]
fn string_map_replaces_values() {
    let mut m = StringMap::new();
    m.insert(s("a"), s("1"));
    m.insert(s("b"), s("2"));
    m.insert(s("a"), s("3"));
    assert_eq!(m.get("a").as_deref(), Some("3"));
    assert_eq!(m.get("b").as_deref(), Some("2"));
    assert_eq!(m.get("c"), None);
    assert_eq!(m.entries.len(), 2);
}

#[test]
fn rest_client_fills_url() {
    let config = RestClientConfig {
        url: s("http://host/items/${id}?q=${name}&x=${absent}"),
        method: s("GET"),
        headers: None,
        timeout_ms: None,
        success_branch: None,
        error_branch: None,
    };
    let msg = message(obj(vec![("id", num("7")), ("name", JsonValue::Str(s("box")))]));
    assert_eq!(config.request_url(&msg), "http://host/items/7?q=box&x=${absent}");
    assert_eq!(config.request_url(&message(JsonValue::Null)), "http://host/items/${id}?q=${name}&x=${absent}");
}

#[test]
fn weather_city_and_url() {
    let config = WeatherConfig { api_key: s("k"), city: s("Paris"), language: s("en") };
    assert_eq!(config.city_for(&message(obj(vec![("city", JsonValue::Str(s("Oslo")))]))), "Oslo");
    assert_eq!(config.city_for(&message(obj(vec![]))), "Paris");
    assert_eq!(config.request_url("Oslo"), "https://api.weatherapi.com/v1/current.json?key=k&q=Oslo&lang=en");
    let out = config.weather_message(message(obj(vec![])), JsonValue::Null);
    assert_eq!(out.msg_type, "weather_info");
    assert_eq!(out.id, 42);
}

#[test]
fn branch_results_in_branch_order() {
    let mut results = BranchResults::new();
    let tagged = |n: &str| message(obj(vec![("n", num(n))]));
    results.add_branch_result(2, tagged("2"));
    results.add_branch_result(0, tagged("0"));
    results.add_branch_result(1, tagged("1"));
    results.add_branch_result(0, tagged("10"));
    let got: Vec<String> = results
        .get_branch_results()
        .iter()
        .map(|m| match member(&m.data, "n") {
            JsonValue::Number(t) => t.clone(),
            other => panic!("unexpected {:?}", other),
        })
        .collect();
    assert_eq!(got, vec![s("10"), s("1"), s("2")]);
}

#[test]
fn interpreter_programs() {
    assert_eq!(
        condition_source("{\"v\":1}", "msg.v < 10"),
        "const msg = {\"v\":1};\nconst condition = () => { return msg.v < 10; };\ncondition();"
    );
    assert_eq!(
        transform_source("{}", "return msg;"),
        "const msg = {};\nconst transform = (msg) => { return msg; };\nJSON.stringify(transform(msg));"
    );
    assert!(script_source("{}", "{}", "return 1;").ends_with("const execute = () => { return 1; };\nJSON.stringify(execute());"));
    let f = JsFunctionNode::new(JsFunctionConfig {
        functions: vec![(s("inc"), s("return msg + 1;")), (s("main"), s("return inc(msg);"))],
        main: s("main"),
        chain_id: s("c"),
        node_id: s("n"),
        common: CommonConfig { node_type: NodeType::Middle },
    });
    assert_eq!(
        f.program("1"),
        "function inc_c_n(msg) { return msg + 1; }\nfunction main_c_n(msg) { return inc_c_n(msg); }\nconst msg = 1;\nJSON.stringify(main_c_n(msg));"
    );
}

#[test]
fn dispatch_step_order() {
    // Two hooks, all succeed: before 0, before 1, work, after 0, after 1.
    let mut step = Step::new(2, 2);
    let mut seen = Vec::new();
    loop {
        let action = step.action();
        seen.push(action);
        match action {
            StepAction::Succeed | StepAction::Fail => break,
            _ => step.record(Ok(())),
        }
    }
    assert_eq!(
        seen,
        vec![
            StepAction::RunBefore(0),
            StepAction::RunBefore(1),
            StepAction::Work,
            StepAction::RunAfter(0),
            StepAction::RunAfter(1),
            StepAction::Succeed
        ]
    );
    // The work fails: no after hooks, both error hooks, the work's error.
    let mut step = Step::new(2, 2);
    step.record(Ok(()));
    step.record(Ok(()));
    assert_eq!(step.action(), StepAction::Work);
    step.record(Err(RuleError::FilterReject));
    assert_eq!(step.action(), StepAction::RunError(0));
    step.record(Ok(()));
    assert_eq!(step.action(), StepAction::RunError(1));
    step.record(Ok(()));
    assert_eq!(step.action(), StepAction::Fail);
    assert_eq!(step.into_result(), Err(RuleError::FilterReject));
    // A message step whose first before hook fails ends at once.
    let mut step = Step::new(1, 0);
    step.record(Err(RuleError::ConfigError(s("denied"))));
    assert_eq!(step.action(), StepAction::Fail);
}

#[test]
fn http_reply_outcome() {
    let ok = reply_outcome(200, obj(vec![("x", num("1"))])).unwrap();
    assert!(matches!(member(&ok, "status"), JsonValue::Number(t) if t == "200"));
    assert!(matches!(member(member(&ok, "body"), "x"), JsonValue::Number(t) if t == "1"));
    assert_eq!(reply_outcome(404, JsonValue::Null).err(), Some(s("HTTP status 404")));
    let err = obj(vec![("error", obj(vec![("message", JsonValue::Str(s("quota")))]))]);
    assert_eq!(reply_outcome(200, err).err(), Some(s("quota")));
    assert_eq!(reply_outcome(500, obj(vec![("error", JsonValue::Null)])).err(), Some(s("Unknown error")));
}

#[test]
fn fork_result_prefers_completed_join() {
    let fork = ForkNode::new();
    let tagged = |id: u128| {
        let mut m = message(obj(vec![]));
        m.id = id;
        m
    };
    assert_eq!(fork.fork_result(tagged(1), vec![(false, tagged(2)), (true, tagged(3)), (false, tagged(4))]).id, 3);
    assert_eq!(fork.fork_result(tagged(1), vec![(false, tagged(2)), (false, tagged(4))]).id, 4);
    assert_eq!(fork.fork_result(tagged(1), vec![]).id, 1);
}

#[test]
fn config_defaults() {
    assert_eq!(FilterConfig::default_config().condition, "true");
    assert_eq!(LogConfig::default_config().template, "");
    let join = JoinConfig::default_config();
    assert_eq!(join.timeout, 30);
    assert!(join.success_branch.is_none());
    assert!(SwitchConfig::default_config().cases.is_empty());
    assert_eq!(TransformJsConfig::default_config().script, "return msg;");
    assert_eq!(JsFunctionConfig::default_config().main, "main");
    assert_eq!(SubchainConfig::default_config().chain_id, 0);
    assert!(matches!(TransformConfig::default_config().template, JsonValue::Object(m) if m.is_empty()));
}

#[test]
fn composite_values_render_as_json_text() {
    // Members in sorted order, as payloads read through serde_json come.
    let nested = obj(vec![
        ("list", JsonValue::Array(vec![num("1"), JsonValue::Str(s("a\"b\\c\n\u{1}")), JsonValue::Null, JsonValue::Bool(false)])),
        ("name", JsonValue::Str(s("x"))),
    ]);
    let msg = message(obj(vec![("nested", nested)]));
    let text = substitute_str("${msg.data.nested}", &msg);
    let expected: serde_json::Value =
        serde_json::from_str(r#"{"name":"x","list":[1,"a\"b\\c\n\u0001",null,false]}"#).unwrap();
    assert_eq!(text, serde_json::to_string(&expected).unwrap());
    assert_eq!(substitute_str("${msg.data.nested.list}", &msg), r#"[1,"a\"b\\c\n\u0001",null,false]"#);
    let mut out = String::new();
    write_json(&mut out, &msg.data);
    assert_eq!(out, format!("{{\"nested\":{}}}", text));
    let t = TransformNode::new(TransformConfig {
        template: obj(vec![("copy", JsonValue::Str(s("${msg.data}")))]),
        common: CommonConfig { node_type: NodeType::Middle },
    });
    let out = t.transform(message(obj(vec![("k", JsonValue::Array(vec![]))])));
    assert!(matches!(member(&out.data, "copy"), JsonValue::Str(t) if t == r#"{"k":[]}"#));
}
