//! The built-in node types: their configurations, descriptors, and the part
//! of their behaviour that decides what happens to a message.
//!
//! Running scripts, sleeping and dispatching to the next node happen around
//! these functions; the functions here say what the outcome is for each
//! result those steps can have.
use vstd::prelude::*;
use crate::flow::{JoinOutcome, JoinState, branch_messages, branch_copy, success_targets};
use crate::json::{JsonValue, str_eq};
use crate::template::{substitute, substitute_str};
use crate::text::{contains_text, occurs, replace_all, replaced};
use crate::types::{CommonConfig, Connection, Message, NodeDescriptor, NodeType, RuleError, default_node_type};

verus! {

pub(crate) fn descriptor(kind: &str, name: &str, description: &str, node_type: NodeType) -> (r: NodeDescriptor)
    ensures
        r.kind@ == kind@,
        r.node_type == node_type,
{
    NodeDescriptor { kind: kind.to_string(), name: name.to_string(), description: description.to_string(), node_type }
}

/// Configuration of the start node.
#[derive(Debug, Clone, Copy)]
pub struct StartConfig {
    pub common: CommonConfig,
}

impl StartConfig {
    /// A start node is a Head node.
    pub fn default_config() -> (r: StartConfig)
        ensures
            r.common.node_type == NodeType::Head,
    {
        StartConfig { common: CommonConfig { node_type: NodeType::Head } }
    }
}

/// Entry of a chain: passes the message on unchanged.
#[derive(Debug)]
pub struct StartNode {
    pub config: StartConfig,
}

impl StartNode {
    pub fn new(config: StartConfig) -> (r: StartNode)
        ensures
            r.config == config,
    {
        StartNode { config }
    }

    pub fn get_descriptor(&self) -> (r: NodeDescriptor)
        ensures
            r.kind@ == "start"@,
            r.node_type == NodeType::Head,
    {
        descriptor("start", "Start", "Entry node of a rule chain", NodeType::Head)
    }
}

/// Configuration of the log node: the line template.
#[derive(Debug, Clone)]
pub struct LogConfig {
    pub template: String,
}

impl LogConfig {
    /// An empty template.
    pub fn default_config() -> (r: LogConfig)
        ensures
            r.template@.len() == 0,
    {
        LogConfig { template: String::new() }
    }
}

/// Writes a line made from its template and passes the message on.
#[derive(Debug)]
pub struct LogNode {
    pub config: LogConfig,
}

impl LogNode {
    pub fn new(config: LogConfig) -> (r: LogNode)
        ensures
            r.config == config,
    {
        LogNode { config }
    }

    /// The log line for `msg`: the template with its markers replaced.
    pub fn format_message(&self, msg: &Message) -> (r: String)
        ensures
            r@ == substitute(self.config.template@, *msg),
    {
        substitute_str(self.config.template.as_str(), msg)
    }

    pub fn get_descriptor(&self) -> (r: NodeDescriptor)
        ensures
            r.kind@ == "log"@,
            r.node_type == NodeType::Tail,
    {
        descriptor("log", "Log", "Writes a formatted log line", NodeType::Tail)
    }
}

/// Configuration of the filter node: the condition a message must meet.
#[derive(Debug, Clone)]
pub struct FilterConfig {
    pub condition: String,
    pub js_script: Option<String>,
    pub common: CommonConfig,
}

impl FilterConfig {
    /// A condition that always holds.
    pub fn default_config() -> (r: FilterConfig)
        ensures
            r.condition@ == "true"@,
            r.js_script is None,
            r.common.node_type == NodeType::Middle,
    {
        FilterConfig { condition: "true".to_string(), js_script: None, common: CommonConfig { node_type: NodeType::Middle } }
    }
}

/// Lets a message through when its condition holds.
#[derive(Debug)]
pub struct FilterNode {
    pub config: FilterConfig,
}

impl FilterNode {
    pub fn new(config: FilterConfig) -> (r: FilterNode)
        ensures
            r.config == config,
    {
        FilterNode { config }
    }

    /// The expression the interpreter evaluates: the script when one is set,
    /// else the condition over the payload's members.
    pub fn condition_expression(&self) -> (r: String)
        ensures
            r@ == match self.config.js_script {
                Some(js) => js@,
                None => "msg.data."@ + self.config.condition@,
            },
    {
        match &self.config.js_script {
            Some(js) => js.clone(),
            None => {
                let mut e = "msg.data.".to_string();
                e.append(self.config.condition.as_str());
                e
            },
        }
    }

    /// The outcome for `msg` once its condition evaluated to `passed`: the
    /// message itself, or a rejection.
    pub fn decide(&self, passed: bool, msg: Message) -> (r: Result<Message, RuleError>)
        ensures
            passed ==> r == Ok::<Message, RuleError>(msg),
            !passed ==> r == Err::<Message, RuleError>(RuleError::FilterReject),
    {
        if passed {
            Ok(msg)
        } else {
            Err(RuleError::FilterReject)
        }
    }

    pub fn get_descriptor(&self) -> (r: NodeDescriptor)
        ensures
            r.kind@ == "filter"@,
            r.node_type == NodeType::Middle,
    {
        descriptor("filter", "Filter", "Passes messages that meet a condition", NodeType::Middle)
    }
}

/// A branch of a switch: its name and the condition that selects it.
#[derive(Debug, Clone)]
pub struct SwitchCase {
    pub name: String,
    pub condition: String,
    pub description: String,
}

/// Configuration of the switch node.
#[derive(Debug, Clone)]
pub struct SwitchConfig {
    pub cases: Vec<SwitchCase>,
    pub default_next: Option<String>,
    pub common: CommonConfig,
}

impl SwitchConfig {
    /// No cases and no default branch.
    pub fn default_config() -> (r: SwitchConfig)
        ensures
            r.cases@.len() == 0,
            r.default_next is None,
            r.common.node_type == NodeType::Middle,
    {
        SwitchConfig { cases: Vec::new(), default_next: None, common: CommonConfig { node_type: NodeType::Middle } }
    }
}

/// Index of the first `true` in `v`.
pub open spec fn first_true(v: Seq<bool>) -> Option<int>
    decreases v.len(),
{
    if v.len() == 0 {
        None
    } else if v[0] {
        Some(0)
    } else {
        match first_true(v.drop_first()) {
            Some(i) => Some(i + 1),
            None => None,
        }
    }
}

/// Routes a message to the first case whose condition holds.
#[derive(Debug)]
pub struct SwitchNode {
    pub config: SwitchConfig,
}

impl SwitchNode {
    pub fn new(config: SwitchConfig) -> (r: SwitchNode)
        ensures
            r.config == config,
    {
        SwitchNode { config }
    }

    /// The branch chosen once the cases' conditions evaluated, in order, to
    /// `verdicts`: evaluation may stop at the first `true`. The first case
    /// whose condition holds wins; when none holds after all were
    /// evaluated, the default branch, if any.
    pub fn route(&self, verdicts: &Vec<bool>) -> (r: Option<String>)
        requires
            verdicts@.len() <= self.config.cases@.len(),
        ensures
            first_true(verdicts@) matches Some(i) ==> (r matches Some(b) && b@ == self.config.cases@[i].name@),
            first_true(verdicts@) is None && verdicts@.len() == self.config.cases@.len() ==> match self.config.default_next {
                Some(d) => (r matches Some(b) && b@ == d@),
                None => r is None,
            },
            first_true(verdicts@) is None && verdicts@.len() < self.config.cases@.len() ==> r is None,
    {
        let mut i: usize = 0;
        assert(verdicts@.subrange(0, verdicts@.len() as int) =~= verdicts@);
        while i < verdicts.len()
            invariant
                i <= verdicts@.len(),
                verdicts@.len() <= self.config.cases@.len(),
                first_true(verdicts@) == match first_true(verdicts@.subrange(i as int, verdicts@.len() as int)) {
                    Some(j) => Some(j + i),
                    None => None,
                },
            decreases verdicts@.len() - i,
        {
            let ghost sub = verdicts@.subrange(i as int, verdicts@.len() as int);
            assert(sub.drop_first() =~= verdicts@.subrange(i + 1, verdicts@.len() as int));
            if verdicts[i] {
                return Some(self.config.cases[i].name.clone());
            }
            i = i + 1;
        }
        if verdicts.len() < self.config.cases.len() {
            return None;
        }
        match &self.config.default_next {
            Some(d) => Some(d.clone()),
            None => None,
        }
    }

    /// `msg` tagged with the chosen branch, when there is one.
    pub fn tag(&self, msg: Message, branch: Option<String>) -> (r: Message)
        ensures
            r.id == msg.id,
            r.msg_type == msg.msg_type,
            r.timestamp == msg.timestamp,
            r.data == msg.data,
            branch matches Some(b) ==> r.metadata.get_spec("branch_name"@) == Some(b@),
            forall|k: Seq<char>| k != "branch_name"@ ==> #[trigger] r.metadata.get_spec(k) == msg.metadata.get_spec(k),
            branch is None ==> r == msg,
    {
        match branch {
            Some(b) => {
                let mut m = msg;
                m.metadata.insert("branch_name".to_string(), b);
                m
            },
            None => msg,
        }
    }

    pub fn get_descriptor(&self) -> (r: NodeDescriptor)
        ensures
            r.kind@ == "switch"@,
            r.node_type == NodeType::Middle,
    {
        descriptor("switch", "Switch", "Chooses a branch by condition", NodeType::Middle)
    }
}

/// Configuration of the transform node: a template for the new payload.
#[derive(Debug)]
pub struct TransformConfig {
    pub template: JsonValue,
    pub common: CommonConfig,
}

impl TransformConfig {
    /// An empty object template.
    pub fn default_config() -> (r: TransformConfig)
        ensures
            r.template matches JsonValue::Object(m) && m@.len() == 0,
            r.common.node_type == NodeType::Middle,
    {
        TransformConfig { template: JsonValue::Object(Vec::new()), common: CommonConfig { node_type: NodeType::Middle } }
    }
}

/// `r` is `template` with each string member substituted against `msg`.
pub open spec fn templated(template: JsonValue, msg: Message, r: JsonValue) -> bool {
    match template {
        JsonValue::Object(members) => {
            &&& r matches JsonValue::Object(out)
            &&& out@.len() == members@.len()
            &&& forall|k: int|
                0 <= k < members@.len() ==> (#[trigger] out@[k]).0@ == members@[k].0@ && match members@[k].1 {
                    JsonValue::Str(s) => (out@[k].1 matches JsonValue::Str(t) && t@ == substitute(s@, msg)),
                    _ => crate::json::same(members@[k].1, out@[k].1),
                }
        },
        _ => crate::json::same(template, r),
    }
}

/// Builds a new payload from a template.
#[derive(Debug)]
pub struct TransformNode {
    pub config: TransformConfig,
}

impl TransformNode {
    pub fn new(config: TransformConfig) -> (r: TransformNode)
        ensures
            r.config == config,
    {
        TransformNode { config }
    }

    /// The template with every string member substituted against `msg`;
    /// other members, and a template that is not an object, stay as they are.
    pub fn apply_template(&self, msg: &Message) -> (r: JsonValue)
        ensures
            templated(self.config.template, *msg, r),
    {
        match &self.config.template {
            JsonValue::Object(members) => {
                let mut out: Vec<(String, JsonValue)> = Vec::new();
                let mut k: usize = 0;
                while k < members.len()
                    invariant
                        self.config.template == JsonValue::Object(*members),
                        k <= members@.len(),
                        out@.len() == k,
                        forall|q: int|
                            0 <= q < k ==> (#[trigger] out@[q]).0@ == members@[q].0@ && match members@[q].1 {
                                JsonValue::Str(s) => (out@[q].1 matches JsonValue::Str(t) && t@ == substitute(s@, *msg)),
                                _ => crate::json::same(members@[q].1, out@[q].1),
                            },
                    decreases members@.len() - k,
                {
                    let v = match &members[k].1 {
                        JsonValue::Str(s) => JsonValue::Str(substitute_str(s.as_str(), msg)),
                        other => other.duplicate(),
                    };
                    out.push((members[k].0.clone(), v));
                    k = k + 1;
                }
                JsonValue::Object(out)
            },
            other => other.duplicate(),
        }
    }

    /// The transformed message: same id, type, metadata and time, with the
    /// templated payload.
    pub fn transform(&self, msg: Message) -> (r: Message)
        ensures
            r.id == msg.id,
            r.msg_type == msg.msg_type,
            r.metadata == msg.metadata,
            r.timestamp == msg.timestamp,
            templated(self.config.template, msg, r.data),
    {
        let data = self.apply_template(&msg);
        Message { id: msg.id, msg_type: msg.msg_type, metadata: msg.metadata, data, timestamp: msg.timestamp }
    }

    pub fn get_descriptor(&self) -> (r: NodeDescriptor)
        ensures
            r.kind@ == "transform"@,
            r.node_type == NodeType::Middle,
    {
        descriptor("transform", "Transform", "Builds a payload from a template", NodeType::Middle)
    }
}

/// Configuration of the script transform node.
#[derive(Debug, Clone)]
pub struct TransformJsConfig {
    pub script: String,
    pub common: CommonConfig,
}

impl TransformJsConfig {
    /// A script that returns the payload unchanged.
    pub fn default_config() -> (r: TransformJsConfig)
        ensures
            r.script@ == "return msg;"@,
            r.common.node_type == NodeType::Middle,
    {
        TransformJsConfig { script: "return msg;".to_string(), common: CommonConfig { node_type: NodeType::Middle } }
    }
}

/// Replaces the payload by what a script computes from it.
#[derive(Debug)]
pub struct TransformJsNode {
    pub config: TransformJsConfig,
}

impl TransformJsNode {
    pub fn new(config: TransformJsConfig) -> (r: TransformJsNode)
        ensures
            r.config == config,
    {
        TransformJsNode { config }
    }

    /// `msg` with the payload the script returned.
    pub fn result_message(&self, msg: Message, data: JsonValue) -> (r: Message)
        ensures
            r.id == msg.id,
            r.msg_type == msg.msg_type,
            r.metadata == msg.metadata,
            r.timestamp == msg.timestamp,
            r.data == data,
    {
        Message { id: msg.id, msg_type: msg.msg_type, metadata: msg.metadata, data, timestamp: msg.timestamp }
    }

    pub fn get_descriptor(&self) -> (r: NodeDescriptor)
        ensures
            r.kind@ == "transform_js"@,
            r.node_type == NodeType::Middle,
    {
        descriptor("transform_js", "Script transform", "Transforms the payload with a script", NodeType::Middle)
    }
}

/// Configuration of the script node: the script, and the type of the
/// messages it produces (the input's type when absent).
#[derive(Debug, Clone)]
pub struct ScriptConfig {
    pub script: String,
    pub output_type: Option<String>,
}

/// Runs a script over the message.
#[derive(Debug)]
pub struct ScriptNode {
    pub config: ScriptConfig,
}

impl ScriptNode {
    pub fn new(config: ScriptConfig) -> (r: ScriptNode)
        ensures
            r.config == config,
    {
        ScriptNode { config }
    }

    /// `msg` with the payload the script returned, typed by `output_type`
    /// when it is set.
    pub fn result_message(&self, msg: Message, data: JsonValue) -> (r: Message)
        ensures
            r.id == msg.id,
            r.msg_type@ == match self.config.output_type {
                Some(t) => t@,
                None => msg.msg_type@,
            },
            r.metadata == msg.metadata,
            r.timestamp == msg.timestamp,
            r.data == data,
    {
        let msg_type = match &self.config.output_type {
            Some(t) => t.clone(),
            None => msg.msg_type,
        };
        Message { id: msg.id, msg_type, metadata: msg.metadata, data, timestamp: msg.timestamp }
    }

    pub fn get_descriptor(&self) -> (r: NodeDescriptor)
        ensures
            r.kind@ == "script"@,
            r.node_type == NodeType::Middle,
    {
        descriptor("script", "Script", "Runs a script over the message", NodeType::Middle)
    }
}

/// Configuration of the function node: named helper functions, the one to
/// call, and the chain and node whose ids keep the names apart.
#[derive(Debug, Clone)]
pub struct JsFunctionConfig {
    pub functions: Vec<(String, String)>,
    pub main: String,
    pub chain_id: String,
    pub node_id: String,
    pub common: CommonConfig,
}

impl JsFunctionConfig {
    /// No helpers, main function `main`, no chain or node id.
    pub fn default_config() -> (r: JsFunctionConfig)
        ensures
            r.functions@.len() == 0,
            r.main@ == "main"@,
            r.chain_id@.len() == 0,
            r.node_id@.len() == 0,
            r.common.node_type == NodeType::Middle,
    {
        JsFunctionConfig {
            functions: Vec::new(),
            main: "main".to_string(),
            chain_id: String::new(),
            node_id: String::new(),
            common: CommonConfig { node_type: NodeType::Middle },
        }
    }
}

/// The name a helper function gets in a shared interpreter.
pub open spec fn mangled(name: Seq<char>, chain_id: Seq<char>, node_id: Seq<char>) -> Seq<char> {
    name + "_"@ + chain_id + "_"@ + node_id
}

/// Runs named helper functions in a script interpreter.
#[derive(Debug)]
pub struct JsFunctionNode {
    pub config: JsFunctionConfig,
}

/// `code` after the renaming of calls to the first `k` helpers.
pub open spec fn renamed_upto(code: Seq<char>, cur: Seq<char>, config: JsFunctionConfig, k: int) -> Seq<char>
    decreases k,
{
    if k <= 0 {
        cur
    } else {
        let prev = renamed_upto(code, cur, config, k - 1);
        let name = config.functions@[k - 1].0@;
        let pat = name + "("@;
        if occurs(code, pat) {
            replaced(prev, pat, mangled(name, config.chain_id@, config.node_id@) + "("@)
        } else {
            prev
        }
    }
}

impl JsFunctionNode {
    pub fn new(config: JsFunctionConfig) -> (r: JsFunctionNode)
        ensures
            r.config == config,
    {
        JsFunctionNode { config }
    }

    /// The name `name` gets in the interpreter.
    pub fn mangled_name(&self, name: &str) -> (r: String)
        ensures
            r@ == mangled(name@, self.config.chain_id@, self.config.node_id@),
    {
        let mut s = name.to_string();
        s.append("_");
        s.append(self.config.chain_id.as_str());
        s.append("_");
        s.append(self.config.node_id.as_str());
        s
    }

    /// `code` with each call `name(` of a helper named in `config` that
    /// occurs in it turned into a call of its mangled name.
    pub fn replace_function_names(&self, code: &str, config: &JsFunctionConfig) -> (r: String)
        ensures
            r@ == renamed_upto(code@, code@, *config, config.functions@.len() as int),
    {
        let mut modified = code.to_string();
        let mut k: usize = 0;
        while k < config.functions.len()
            invariant
                k <= config.functions@.len(),
                modified@ == renamed_upto(code@, code@, *config, k as int),
            decreases config.functions@.len() - k,
        {
            let name = &config.functions[k].0;
            let mut pat = name.clone();
            pat.append("(");
            if contains_text(code, pat.as_str()) {
                let mut full = name.clone();
                full.append("_");
                full.append(config.chain_id.as_str());
                full.append("_");
                full.append(config.node_id.as_str());
                full.append("(");
                proof {
                    reveal_strlit("(");
                    assert(pat@.len() > 0);
                }
                modified = replace_all(modified.as_str(), pat.as_str(), full.as_str());
            }
            k = k + 1;
        }
        modified
    }

    /// `msg` with the payload the main function returned.
    pub fn result_message(&self, msg: Message, data: JsonValue) -> (r: Message)
        ensures
            r.id == msg.id,
            r.msg_type@ == "js_function_result"@,
            r.metadata == msg.metadata,
            r.timestamp == msg.timestamp,
            r.data == data,
    {
        Message {
            id: msg.id,
            msg_type: "js_function_result".to_string(),
            metadata: msg.metadata,
            data,
            timestamp: msg.timestamp,
        }
    }

    pub fn get_descriptor(&self) -> (r: NodeDescriptor)
        ensures
            r.kind@ == "js_function"@,
            r.node_type == NodeType::Middle,
    {
        descriptor("js_function", "Function", "Runs named script functions", NodeType::Middle)
    }
}

/// Configuration of the delay node.
#[derive(Debug, Clone, Copy)]
pub struct DelayConfig {
    /// Delay before each send, in milliseconds.
    pub delay_ms: u64,
    /// Whether the delay repeats.
    pub periodic: bool,
    /// How many sends a periodic delay makes; 0 for no end.
    pub period_count: u32,
}

impl DelayConfig {
    /// One send after a second.
    pub fn default_config() -> (r: DelayConfig)
        ensures
            r.delay_ms == 1000,
            !r.periodic,
            r.period_count == 0,
    {
        DelayConfig { delay_ms: 1000, periodic: false, period_count: 0 }
    }
}

/// Sends the message on after a delay, once or periodically.
#[derive(Debug)]
pub struct DelayNode {
    pub config: DelayConfig,
}

impl DelayNode {
    pub fn new(config: DelayConfig) -> (r: DelayNode)
        ensures
            r.config == config,
    {
        DelayNode { config }
    }

    /// Whether another delayed send follows the `sent` sends made so far.
    pub fn send_again(&self, sent: u32) -> (r: bool)
        ensures
            r == (sent == 0 || (self.config.periodic && (self.config.period_count == 0 || sent < self.config.period_count))),
    {
        if sent == 0 {
            true
        } else if !self.config.periodic {
            false
        } else {
            self.config.period_count == 0 || sent < self.config.period_count
        }
    }

    pub fn get_descriptor(&self) -> (r: NodeDescriptor)
        ensures
            r.kind@ == "delay"@,
            r.node_type == NodeType::Head,
    {
        descriptor("delay", "Delay", "Sends the message on after a delay", NodeType::Head)
    }
}

/// Configuration of the sub-chain node: the chain it invokes.
#[derive(Debug, Clone, Copy)]
pub struct SubchainConfig {
    pub chain_id: u128,
    pub common: CommonConfig,
}

impl SubchainConfig {
    /// The nil chain id.
    pub fn default_config() -> (r: SubchainConfig)
        ensures
            r.chain_id == 0,
            r.common.node_type == NodeType::Middle,
    {
        SubchainConfig { chain_id: 0, common: CommonConfig { node_type: NodeType::Middle } }
    }
}

/// Runs another chain as one step.
#[derive(Debug)]
pub struct SubchainNode {
    pub config: SubchainConfig,
}

impl SubchainNode {
    pub fn new(config: SubchainConfig) -> (r: SubchainNode)
        ensures
            r.config == config,
    {
        SubchainNode { config }
    }

    pub fn get_descriptor(&self) -> (r: NodeDescriptor)
        ensures
            r.kind@ == "subchain"@,
            r.node_type == NodeType::Middle,
    {
        descriptor("subchain", "Sub-chain", "Runs another rule chain", NodeType::Middle)
    }
}

/// Index of the first result at or after `i` whose branch completed a join.
pub open spec fn first_joined(results: Seq<(bool, Message)>, i: int) -> Option<int>
    decreases results.len() - i,
{
    if i < 0 || i >= results.len() {
        None
    } else if results[i].0 {
        Some(i)
    } else {
        first_joined(results, i + 1)
    }
}

/// Sends a copy of the message down each `success` branch.
#[derive(Debug)]
pub struct ForkNode {}

impl ForkNode {
    pub fn new() -> (r: ForkNode) {
        ForkNode {  }
    }

    /// The copies for the branches of fork node `node_id`, with the nodes
    /// they go to.
    pub fn branches(&self, node_id: u128, conns: &Vec<Connection>, msg: &Message) -> (r: Vec<(u128, Message)>)
        ensures
            r@.len() == success_targets(conns@, node_id).len(),
            forall|i: int| 0 <= i < r@.len() ==> (#[trigger] r@[i]).0 == success_targets(conns@, node_id)[i] && branch_copy(
                *msg,
                r@[i].1,
                i as nat,
            ),
    {
        branch_messages(msg, node_id, conns)
    }

    /// What the fork hands back once its branches are done, given for each
    /// branch whether its walk completed a join and the message it ended
    /// with: the first branch that completed a join, else the last branch,
    /// else the input.
    pub fn fork_result(&self, input: Message, results: Vec<(bool, Message)>) -> (r: Message)
        ensures
            match first_joined(results@, 0) {
                Some(i) => r == results@[i].1,
                None => if results@.len() > 0 {
                    r == results@.last().1
                } else {
                    r == input
                },
            },
    {
        let mut results = results;
        let mut i: usize = 0;
        while i < results.len() && !results[i].0
            invariant
                i <= results@.len(),
                first_joined(results@, 0) == first_joined(results@, i as int),
            decreases results@.len() - i,
        {
            i = i + 1;
        }
        if i < results.len() {
            results.swap_remove(i).1
        } else {
            match results.pop() {
                Some(last) => last.1,
                None => input,
            }
        }
    }

    pub fn get_descriptor(&self) -> (r: NodeDescriptor)
        ensures
            r.kind@ == "fork"@,
            r.node_type == NodeType::Middle,
    {
        descriptor("fork", "Fork", "Sends the message down parallel branches", NodeType::Middle)
    }
}

/// Configuration of the join node.
#[derive(Debug, Clone)]
pub struct JoinConfig {
    /// Seconds a partial join may wait.
    pub timeout: u64,
    /// Branch name given to the merged message.
    pub success_branch: Option<String>,
    pub error_branch: Option<String>,
    pub common: CommonConfig,
}

impl JoinConfig {
    /// A 30 second timeout and no branch names.
    pub fn default_config() -> (r: JoinConfig)
        ensures
            r.timeout == 30,
            r.success_branch is None,
            r.error_branch is None,
            r.common.node_type == NodeType::Middle,
    {
        JoinConfig { timeout: 30, success_branch: None, error_branch: None, common: CommonConfig { node_type: NodeType::Middle } }
    }
}

/// Number of connections that arrive at `node`.
pub open spec fn incoming_count(conns: Seq<Connection>, node: u128) -> nat
    decreases conns.len(),
{
    if conns.len() == 0 {
        0
    } else {
        incoming_count(conns.drop_last(), node) + if conns.last().to_id == node {
            1nat
        } else {
            0nat
        }
    }
}

/// `m` is what a join emits when `msg` completes it after `arrivals`
/// (which end with `msg`): id, type and time of `msg`, the merged payload,
/// and `msg`'s metadata with `branch_name` set to the success branch when
/// one is configured.
pub open spec fn joined_message(m: Message, msg: Message, arrivals: Seq<Message>, success_branch: Option<String>) -> bool {
    &&& m.id == msg.id
    &&& m.msg_type == msg.msg_type
    &&& m.timestamp == msg.timestamp
    &&& crate::flow::merged_data(m.data, arrivals)
    &&& match success_branch {
        Some(b) => {
            &&& m.metadata.get_spec("branch_name"@) == Some(b@)
            &&& forall|k: Seq<char>| k != "branch_name"@ ==> #[trigger] m.metadata.get_spec(k) == msg.metadata.get_spec(k)
        },
        None => m.metadata == msg.metadata,
    }
}

/// Waits for every incoming branch and merges what they bring.
#[derive(Debug)]
pub struct JoinNode {
    pub config: JoinConfig,
}

impl JoinNode {
    pub fn new(config: JoinConfig) -> (r: JoinNode)
        ensures
            r.config == config,
    {
        JoinNode { config }
    }

    /// How many arrivals the join node `node_id` expects per message.
    pub fn expected(&self, node_id: u128, conns: &Vec<Connection>) -> (r: usize)
        ensures
            r == incoming_count(conns@, node_id),
    {
        let mut c: usize = 0;
        let mut k: usize = 0;
        while k < conns.len()
            invariant
                k <= conns@.len(),
                c == incoming_count(conns@.subrange(0, k as int), node_id),
                c <= k,
            decreases conns@.len() - k,
        {
            let ghost sub = conns@.subrange(0, k + 1);
            assert(sub.drop_last() =~= conns@.subrange(0, k as int));
            if conns[k].to_id == node_id {
                c = c + 1;
            }
            k = k + 1;
        }
        assert(conns@.subrange(0, k as int) =~= conns@);
        c
    }

    /// Records `msg` at this join node; the merged message, when this
    /// arrival completes the join, carries the success branch name if one
    /// is configured.
    pub fn handle_arrival(&self, state: &mut JoinState, node_id: u128, conns: &Vec<Connection>, msg: Message) -> (r: JoinOutcome)
        ensures
            ({
                let before = old(state).waiting(node_id, msg.id);
                let expected = incoming_count(conns@, node_id);
                if crate::flow::completes(before.len(), expected) {
                    &&& r matches JoinOutcome::Merged(m) && joined_message(m, msg, before.push(msg), self.config.success_branch)
                    &&& final(state).waiting(node_id, msg.id).len() == 0
                } else {
                    &&& r matches JoinOutcome::Waiting(w) && crate::types::same_message(msg, w)
                    &&& final(state).waiting(node_id, msg.id) == before.push(msg)
                }
            }),
            forall|n2: u128, m2: u128|
                !(n2 == node_id && m2 == msg.id) ==> #[trigger] final(state).waiting(n2, m2) == old(state).waiting(n2, m2),
    {
        let expected = self.expected(node_id, conns);
        match state.arrive(node_id, msg, expected) {
            JoinOutcome::Merged(m) => {
                let mut m = m;
                match &self.config.success_branch {
                    Some(b) => m.metadata.insert("branch_name".to_string(), b.clone()),
                    None => {},
                }
                JoinOutcome::Merged(m)
            },
            w => w,
        }
    }

    pub fn get_descriptor(&self) -> (r: NodeDescriptor)
        ensures
            r.kind@ == "join"@,
            r.node_type == NodeType::Middle,
    {
        descriptor("join", "Join", "Merges parallel branches", NodeType::Middle)
    }
}

/// Logs every node step.
#[derive(Debug, Clone, Copy)]
pub struct LoggingInterceptor {}

/// Logs every processed message.
#[derive(Debug, Clone, Copy)]
pub struct MessageLoggingInterceptor {}

} // verus!
