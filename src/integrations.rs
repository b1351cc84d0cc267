//! Nodes that talk to the outside: the HTTP client, the weather lookup
//! and the cron schedule. The requests and waits happen around these
//! functions; here is what goes into them and what comes out.
use vstd::prelude::*;
use crate::components::descriptor;
use crate::flow::{decimal, decimal_text};
use crate::json::JsonValue;
use crate::template::{render, render_text};
use crate::text::{contains_text, occurs, replace_all, replaced};
use crate::types::{CommonConfig, Message, NodeDescriptor, NodeType, RuleError};

verus! {

/// Configuration of the HTTP client node.
#[derive(Debug, Clone)]
pub struct RestClientConfig {
    pub url: String,
    pub method: String,
    pub headers: Option<Vec<(String, String)>>,
    pub timeout_ms: Option<u64>,
    pub success_branch: Option<String>,
    pub error_branch: Option<String>,
}

/// `url` with the `${key}` placeholders of the first `k` payload members
/// filled in, each where it occurs.
pub open spec fn url_filled(url: Seq<char>, members: Seq<(String, JsonValue)>, k: int) -> Seq<char>
    decreases k,
{
    if k <= 0 {
        url
    } else {
        let prev = url_filled(url, members, k - 1);
        let pat = "${"@ + members[k - 1].0@ + "}"@;
        if occurs(prev, pat) {
            replaced(prev, pat, render(members[k - 1].1))
        } else {
            prev
        }
    }
}

impl RestClientConfig {
    /// The URL to request for `msg`: each `${key}` of the configured URL is
    /// replaced by the payload member `key`, written as in templates.
    pub fn request_url(&self, msg: &Message) -> (r: String)
        ensures
            r@ == match msg.data {
                JsonValue::Object(members) => url_filled(self.url@, members@, members@.len() as int),
                _ => self.url@,
            },
    {
        let mut url = self.url.clone();
        match &msg.data {
            JsonValue::Object(members) => {
                let mut k: usize = 0;
                while k < members.len()
                    invariant
                        msg.data == JsonValue::Object(*members),
                        k <= members@.len(),
                        url@ == url_filled(self.url@, members@, k as int),
                    decreases members@.len() - k,
                {
                    let mut pat = "${".to_string();
                    pat.append(members[k].0.as_str());
                    pat.append("}");
                    if contains_text(url.as_str(), pat.as_str()) {
                        proof {
                            reveal_strlit("${");
                            assert(pat@.len() > 0);
                        }
                        let value = render_text(&members[k].1);
                        url = replace_all(url.as_str(), pat.as_str(), value.as_str());
                    }
                    k = k + 1;
                }
            },
            _ => {},
        }
        url
    }
}

/// The error text of an HTTP reply with status `status` and body `body`:
/// none for a 2xx reply without an `error` member; else the error's
/// `message` string, `Unknown error` when it has none, or the status.
pub open spec fn reply_error(status: u16, body: JsonValue) -> Option<Seq<char>> {
    if 200 <= status < 300 && body.get_spec("error"@) is None {
        None
    } else {
        match body.get_spec("error"@) {
            Some(err) => match err.get_spec("message"@) {
                Some(JsonValue::Str(t)) => Some(t@),
                _ => Some("Unknown error"@),
            },
            None => Some("HTTP status "@ + decimal(status as nat)),
        }
    }
}

/// `v` is `{"status": status, "body": body}`.
pub open spec fn reply_data(v: JsonValue, status: u16, body: JsonValue) -> bool {
    &&& v matches JsonValue::Object(m)
    &&& m@.len() == 2
    &&& m@[0].0@ == "status"@
    &&& m@[0].1 matches JsonValue::Number(t)
    &&& t@ == decimal(status as nat)
    &&& m@[1].0@ == "body"@
    &&& m@[1].1 == body
}

/// What an HTTP reply makes of a request: its status and body on success,
/// the error text otherwise.
pub fn reply_outcome(status: u16, body: JsonValue) -> (r: Result<JsonValue, String>)
    ensures
        match reply_error(status, body) {
            Some(t) => (r matches Err(e) && e@ == t),
            None => (r matches Ok(v) && reply_data(v, status, body)),
        },
{
    let failed = match body.get("error") {
        Some(err) => Some(match err.get("message") {
            Some(JsonValue::Str(t)) => t.clone(),
            _ => "Unknown error".to_string(),
        }),
        None => if 200 <= status && status < 300 {
            None
        } else {
            let mut t = "HTTP status ".to_string();
            t.append(decimal_text(status as usize).as_str());
            Some(t)
        },
    };
    match failed {
        Some(t) => Err(t),
        None => {
            let mut m: Vec<(String, JsonValue)> = Vec::new();
            m.push(("status".to_string(), JsonValue::Number(decimal_text(status as usize))));
            m.push(("body".to_string(), body));
            Ok(JsonValue::Object(m))
        },
    }
}

/// Configuration of the weather lookup node.
#[derive(Debug, Clone)]
pub struct WeatherConfig {
    pub api_key: String,
    pub city: String,
    pub language: String,
}

impl WeatherConfig {
    /// The city to look up: the payload's `city` string, else the configured one.
    pub fn city_for(&self, msg: &Message) -> (r: String)
        ensures
            r@ == match msg.data.get_spec("city"@) {
                Some(JsonValue::Str(c)) => c@,
                _ => self.city@,
            },
    {
        match msg.data.get("city") {
            Some(JsonValue::Str(c)) => c.clone(),
            _ => self.city.clone(),
        }
    }

    /// The weather service request for `city`.
    pub fn request_url(&self, city: &str) -> (r: String)
        ensures
            r@ == "https://api.weatherapi.com/v1/current.json?key="@ + self.api_key@ + "&q="@ + city@ + "&lang="@
                + self.language@,
    {
        let mut url = "https://api.weatherapi.com/v1/current.json?key=".to_string();
        url.append(self.api_key.as_str());
        url.append("&q=");
        url.append(city);
        url.append("&lang=");
        url.append(self.language.as_str());
        url
    }

    /// `msg` carrying the weather report `report`.
    pub fn weather_message(&self, msg: Message, report: JsonValue) -> (r: Message)
        ensures
            r.id == msg.id,
            r.msg_type@ == "weather_info"@,
            r.metadata == msg.metadata,
            r.timestamp == msg.timestamp,
            r.data == report,
    {
        Message { id: msg.id, msg_type: "weather_info".to_string(), metadata: msg.metadata, data: report, timestamp: msg.timestamp }
    }
}

/// Configuration of the schedule node: a cron expression.
#[derive(Debug, Clone)]
pub struct ScheduleConfig {
    pub cron: String,
    pub timezone_offset: i32,
    pub common: CommonConfig,
}

impl ScheduleConfig {
    /// Every second.
    pub fn default_config() -> (r: ScheduleConfig)
        ensures
            r.cron@ == "*/1 * * * * *"@,
            r.timezone_offset == 0,
            r.common.node_type == NodeType::Head,
    {
        ScheduleConfig { cron: "*/1 * * * * *".to_string(), timezone_offset: 0, common: CommonConfig { node_type: NodeType::Head } }
    }
}

/// Whether the cron crate accepts `expr` as a schedule.
pub uninterp spec fn cron_accepts(expr: Seq<char>) -> bool;

/// Relies on cron::Schedule's FromStr: whether a cron expression parses.
#[verifier::external_body]
fn parse_schedule(expr: &str) -> (r: bool)
    ensures
        r == cron_accepts(expr@),
{
    <cron::Schedule as std::str::FromStr>::from_str(expr).is_ok()
}

/// The latest time, in Unix milliseconds, from which a schedule can be
/// searched: the search starts one second later, and chrono's date range
/// ends just after that.
pub const SCHEDULE_LIMIT_MS: i64 = 8_210_298_412_799_000;

/// The first time, in Unix milliseconds, that the schedule `expr` fires
/// after `now_ms`, as the cron crate finds it; none when it never fires
/// again or does not parse.
pub uninterp spec fn cron_next_after(expr: Seq<char>, now_ms: i64) -> Option<i64>;

/// Relies on cron::Schedule::after (with the expression parsed by its
/// FromStr and the time converted by chrono's DateTime::from_timestamp_millis):
/// the first time the schedule fires after `now_ms`. The search starts one
/// second after `now_ms`, so a time found is later.
#[verifier::external_body]
fn next_fire_after(expr: &str, now_ms: i64) -> (r: Option<i64>)
    requires
        now_ms < SCHEDULE_LIMIT_MS,
    ensures
        r == cron_next_after(expr@, now_ms),
        r matches Some(t) ==> t > now_ms,
{
    let schedule = <cron::Schedule as std::str::FromStr>::from_str(expr).ok()?;
    let now = chrono::DateTime::<chrono::Utc>::from_timestamp_millis(now_ms)?;
    schedule.after(&now).next().map(|t| t.timestamp_millis())
}

/// Milliseconds from `now` until `next`; none when `next` has passed.
pub fn delay_until(next: i64, now: i64) -> (r: u64)
    ensures
        next <= now ==> r == 0,
        next > now ==> r == next - now,
{
    if next <= now {
        0
    } else {
        let d: i128 = next as i128 - now as i128;
        d as u64
    }
}

/// Sends the message on each time its cron schedule fires.
#[derive(Debug)]
pub struct ScheduleNode {
    pub config: ScheduleConfig,
}

impl ScheduleNode {
    /// A schedule node, when the cron crate accepts the expression.
    pub fn new(config: ScheduleConfig) -> (r: Result<ScheduleNode, RuleError>)
        ensures
            r is Ok <==> cron_accepts(config.cron@),
            r matches Ok(n) ==> n.config == config,
            r matches Err(e) ==> e is ConfigError,
    {
        if parse_schedule(config.cron.as_str()) {
            Ok(ScheduleNode { config })
        } else {
            Err(RuleError::ConfigError("invalid cron expression".to_string()))
        }
    }

    /// How long to wait at `now_ms` before the next send; none when the
    /// schedule never fires again.
    pub fn wait_ms(&self, now_ms: i64) -> (r: Option<u64>)
        requires
            now_ms < SCHEDULE_LIMIT_MS,
        ensures
            r == match cron_next_after(self.config.cron@, now_ms) {
                Some(t) => Some((t - now_ms) as u64),
                None => None::<u64>,
            },
            r matches Some(d) ==> d > 0,
    {
        match next_fire_after(self.config.cron.as_str(), now_ms) {
            Some(next) => Some(delay_until(next, now_ms)),
            None => None,
        }
    }

    pub fn get_descriptor(&self) -> (r: NodeDescriptor)
        ensures
            r.kind@ == "schedule"@,
            r.node_type == NodeType::Head,
    {
        descriptor("schedule", "Schedule", "Sends messages on a cron schedule", NodeType::Head)
    }
}

impl RestClientConfig {
    /// The message a request for `msg` produces: on success its payload is
    /// the response and its type `http_response`, and it takes the success
    /// branch if one is set; on failure the error text goes in its
    /// `error` metadata and it takes the error branch if one is set.
    pub fn outcome(&self, msg: Message, result: Result<JsonValue, String>) -> (r: Message)
        ensures
            r.id == msg.id,
            r.timestamp == msg.timestamp,
            match result {
                Ok(data) => {
                    &&& r.data == data
                    &&& r.msg_type@ == "http_response"@
                    &&& self.success_branch matches Some(b) ==> r.metadata.get_spec("branch_name"@) == Some(b@)
                },
                Err(e) => {
                    &&& r.data == msg.data
                    &&& r.msg_type == msg.msg_type
                    &&& r.metadata.get_spec("error"@) == Some(e@)
                    &&& self.error_branch matches Some(b) ==> r.metadata.get_spec("branch_name"@) == Some(b@)
                },
            },
    {
        let mut m = msg;
        match result {
            Ok(data) => {
                m.data = data;
                m.msg_type = "http_response".to_string();
                match &self.success_branch {
                    Some(b) => m.metadata.insert("branch_name".to_string(), b.clone()),
                    None => {},
                }
            },
            Err(e) => {
                m.metadata.insert("error".to_string(), e);
                let ghost with_error = m.metadata;
                match &self.error_branch {
                    Some(b) => {
                        m.metadata.insert("branch_name".to_string(), b.clone());
                        proof {
                            reveal_strlit("error");
                            reveal_strlit("branch_name");
                            assert("error"@[0] != "branch_name"@[0]);
                            assert(m.metadata.get_spec("error"@) == with_error.get_spec("error"@));
                        }
                    },
                    None => {},
                }
            },
        }
        m
    }
}

} // verus!
