//! The programs handed to the script interpreter. The message comes in as
//! its JSON text; each program leaves its answer as the value of its last
//! expression.
use vstd::prelude::*;
use crate::components::{JsFunctionConfig, JsFunctionNode, mangled, renamed_upto};

verus! {

/// Binds `msg` and evaluates `condition` to a boolean.
pub open spec fn condition_program(msg_json: Seq<char>, condition: Seq<char>) -> Seq<char> {
    "const msg = "@ + msg_json + ";\nconst condition = () => { return "@ + condition + "; };\ncondition();"@
}

/// Binds `msg` and `ctx` and runs `script` as a function body; the result is
/// the JSON text of what it returns.
pub open spec fn script_program(msg_json: Seq<char>, ctx_json: Seq<char>, script: Seq<char>) -> Seq<char> {
    "const msg = "@ + msg_json + ";\nconst ctx = "@ + ctx_json + ";\nconst execute = () => { "@ + script
        + " };\nJSON.stringify(execute());"@
}

/// Binds the payload as `msg` and runs `script` as the body of a
/// transformation of it; the result is the JSON text of what it returns.
pub open spec fn transform_program(data_json: Seq<char>, script: Seq<char>) -> Seq<char> {
    "const msg = "@ + data_json + ";\nconst transform = (msg) => { "@ + script + " };\nJSON.stringify(transform(msg));"@
}

/// The definitions of the first `k` helper functions, under their mangled
/// names, with calls among them renamed.
pub open spec fn definitions(config: JsFunctionConfig, k: int) -> Seq<char>
    decreases k,
{
    if k <= 0 {
        Seq::empty()
    } else {
        let (name, body) = (config.functions@[k - 1].0@, config.functions@[k - 1].1@);
        definitions(config, k - 1) + "function "@ + mangled(name, config.chain_id@, config.node_id@) + "(msg) { "@
            + renamed_upto(body, body, config, config.functions@.len() as int) + " }\n"@
    }
}

/// The helper definitions, then `msg`, then the call of the main function;
/// the result is the JSON text of what it returns.
pub open spec fn function_program(config: JsFunctionConfig, msg_json: Seq<char>) -> Seq<char> {
    definitions(config, config.functions@.len() as int) + "const msg = "@ + msg_json + ";\nJSON.stringify("@ + mangled(
        config.main@,
        config.chain_id@,
        config.node_id@,
    ) + "(msg));"@
}

/// The program deciding whether `condition` holds for the message.
pub fn condition_source(msg_json: &str, condition: &str) -> (r: String)
    ensures
        r@ == condition_program(msg_json@, condition@),
{
    let mut s = "const msg = ".to_string();
    s.append(msg_json);
    s.append(";\nconst condition = () => { return ");
    s.append(condition);
    s.append("; };\ncondition();");
    s
}

/// The program of a script node.
pub fn script_source(msg_json: &str, ctx_json: &str, script: &str) -> (r: String)
    ensures
        r@ == script_program(msg_json@, ctx_json@, script@),
{
    let mut s = "const msg = ".to_string();
    s.append(msg_json);
    s.append(";\nconst ctx = ");
    s.append(ctx_json);
    s.append(";\nconst execute = () => { ");
    s.append(script);
    s.append(" };\nJSON.stringify(execute());");
    s
}

/// The program of a script transform node.
pub fn transform_source(data_json: &str, script: &str) -> (r: String)
    ensures
        r@ == transform_program(data_json@, script@),
{
    let mut s = "const msg = ".to_string();
    s.append(data_json);
    s.append(";\nconst transform = (msg) => { ");
    s.append(script);
    s.append(" };\nJSON.stringify(transform(msg));");
    s
}

impl JsFunctionNode {
    /// The program of this function node for a message.
    pub fn program(&self, msg_json: &str) -> (r: String)
        ensures
            r@ == function_program(self.config, msg_json@),
    {
        let config = &self.config;
        let mut s = String::new();
        let mut k: usize = 0;
        while k < config.functions.len()
            invariant
                *config == self.config,
                k <= config.functions@.len(),
                s@ == definitions(*config, k as int),
            decreases config.functions@.len() - k,
        {
            let body = self.replace_function_names(config.functions[k].1.as_str(), config);
            s.append("function ");
            s.append(self.mangled_name(config.functions[k].0.as_str()).as_str());
            s.append("(msg) { ");
            s.append(body.as_str());
            s.append(" }\n");
            k = k + 1;
        }
        s.append("const msg = ");
        s.append(msg_json);
        s.append(";\nJSON.stringify(");
        s.append(self.mangled_name(config.main.as_str()).as_str());
        s.append("(msg));");
        s
    }
}

} // verus!
