//! The docker authorization policy: every container creation that passes
//! through the plugin gets the configured CPU and memory limits written into
//! its `HostConfig`, unless the policy switches that off.

use vstd::prelude::*;
use crate::text::{has_infix, chars_of, contains_chars, decimal, u64_to_decimal};

verus! {

/// An authorization request from dockerd.
#[allow(non_snake_case)]
#[derive(Debug)]
pub struct AuthZReq {
    pub User: String,
    pub RequestMethod: String,
    pub RequestURI: String,
    pub RequestBody: Option<String>,
}

/// The plugin's answer to dockerd.
#[allow(non_snake_case)]
#[derive(Debug)]
pub struct AuthZRes {
    pub Allow: bool,
    pub Msg: String,
    pub ModifiedRequestBody: Option<String>,
}

/// The resource policy the plugin applies: whether to inject limits, the CPU
/// limit in nano-CPUs and as it is written in messages, and the memory limit in MiB.
pub struct AuthzPolicy {
    pub enable_auto_mutation: bool,
    pub nano_cpus: i64,
    pub cpu_limit_text: String,
    pub default_memory_mb: u64,
}

/// The docker authorization engine.
pub struct GaramDockerAuthzEngine;

/// What the plugin does with a request.
pub enum InspectOutcome {
    /// Answer dockerd.
    Respond(AuthZRes),
    /// Abandon the request without an answer: its body is JSON that is neither
    /// an object nor null, or the memory limit in bytes overflows.
    Abort,
}

/// The kind of a JSON value, as far as the policy cares.
#[derive(Debug, Clone, Copy, PartialEq, Eq, Structural)]
pub enum JsonKind {
    Null,
    Object,
    Other,
}

/// The kinds of the JSON document `text` as serde_json reads it: the kind of
/// the top-level value and the kind of its member `key` (null when the member
/// is missing or the value is not an object); `None` when serde_json refuses
/// the text.
pub uninterp spec fn json_document_shape(text: Seq<char>, key: Seq<char>) -> Option<(JsonKind, JsonKind)>;

/// serde_json `from_str::<Value>`, read down to the kinds of the parsed value
/// and of its member `key` (serde_json's `Index` by a string): the name
/// [`json_document_shape`] of the text.
#[verifier::external_body]
fn json_shape(text: &str, key: &str) -> (r: Option<(JsonKind, JsonKind)>)
    ensures
        r == json_document_shape(text@, key@),
{
    let v = serde_json::from_str::<serde_json::Value>(text).ok()?;
    let top = match &v {
        serde_json::Value::Null => JsonKind::Null,
        serde_json::Value::Object(_) => JsonKind::Object,
        _ => JsonKind::Other,
    };
    let member = match &v[key] {
        serde_json::Value::Null => JsonKind::Null,
        serde_json::Value::Object(_) => JsonKind::Object,
        _ => JsonKind::Other,
    };
    Some((top, member))
}

/// The compact text serde_json prints for the document `text` after setting
/// its member `key` to an empty object (serde_json's `IndexMut`, which turns
/// null into an object); a value that is neither an object nor null is
/// printed unchanged, and a text serde_json refuses is returned as it is.
pub uninterp spec fn json_with_empty_member(text: Seq<char>, key: Seq<char>) -> Seq<char>;

/// serde_json `from_str`, `IndexMut` and `to_string`: see [`json_with_empty_member`].
#[verifier::external_body]
fn json_add_empty_member(text: &str, key: &str) -> (r: String)
    ensures
        r@ == json_with_empty_member(text@, key@),
{
    match serde_json::from_str::<serde_json::Value>(text) {
        Ok(mut v) => {
            if let serde_json::Value::Object(_) | serde_json::Value::Null = v {
                v[key] = serde_json::Value::Object(serde_json::Map::new());
            }
            v.to_string()
        },
        Err(_) => text.to_string(),
    }
}

/// The compact text serde_json prints for the document `text` after setting
/// `field` to the number `n` in its member `key` when that member is an
/// object (serde_json's `get_mut` and `Map::insert`); otherwise the document
/// printed unchanged, and a text serde_json refuses is returned as it is.
pub uninterp spec fn json_with_int_member(text: Seq<char>, key: Seq<char>, field: Seq<char>, n: int) -> Seq<char>;

/// serde_json `from_str`, `get_mut`, `Map::insert` of a signed number and
/// `to_string`: see [`json_with_int_member`].
#[verifier::external_body]
fn json_put_i64(text: &str, key: &str, field: &str, n: i64) -> (r: String)
    ensures
        r@ == json_with_int_member(text@, key@, field@, n as int),
{
    match serde_json::from_str::<serde_json::Value>(text) {
        Ok(mut v) => {
            if let Some(serde_json::Value::Object(h)) = v.get_mut(key) {
                h.insert(field.to_string(), serde_json::Value::from(n));
            }
            v.to_string()
        },
        Err(_) => text.to_string(),
    }
}

/// As [`json_put_i64`], for an unsigned number.
#[verifier::external_body]
fn json_put_u64(text: &str, key: &str, field: &str, n: u64) -> (r: String)
    ensures
        r@ == json_with_int_member(text@, key@, field@, n as int),
{
    match serde_json::from_str::<serde_json::Value>(text) {
        Ok(mut v) => {
            if let Some(serde_json::Value::Object(h)) = v.get_mut(key) {
                h.insert(field.to_string(), serde_json::Value::from(n));
            }
            v.to_string()
        },
        Err(_) => text.to_string(),
    }
}

/// The compact text serde_json prints for the document `text` (a text
/// serde_json refuses is returned as it is).
pub uninterp spec fn json_reprinted(text: Seq<char>) -> Seq<char>;

/// serde_json `from_str` and `to_string`: see [`json_reprinted`].
#[verifier::external_body]
fn json_reprint(text: &str) -> (r: String)
    ensures
        r@ == json_reprinted(text@),
{
    match serde_json::from_str::<serde_json::Value>(text) {
        Ok(v) => v.to_string(),
        Err(_) => text.to_string(),
    }
}

pub open spec fn passed_msg() -> Seq<char> {
    "GaramOS Core Security Passed."@
}

pub open spec fn skipped_msg() -> Seq<char> {
    "GaramOS Core Security Passed (Mutation Skipped)."@
}

pub open spec fn injected_msg(cpu_text: Seq<char>, memory_mb: u64) -> Seq<char> {
    "GaramOS 안보법에 의거하여 자원 격벽(CPU: "@ + cpu_text + "도막, RAM: "@ + decimal(memory_mb as nat) + "MB)이 강제 주입되었습니다."@
}

/// The answer that only allows.
pub open spec fn plain_answer(res: AuthZRes, msg: Seq<char>) -> bool {
    res.Allow && res.Msg@ == msg && res.ModifiedRequestBody is None
}

/// The body with the limits: `HostConfig` added as an empty object when it
/// is missing (null), then `NanoCpus` and `Memory` (MiB times 1 MiB) set in it.
pub open spec fn limited_body(body: Seq<char>, host_config: JsonKind, policy: AuthzPolicy) -> Seq<char> {
    let t0 = if host_config == JsonKind::Null {
        json_with_empty_member(body, "HostConfig"@)
    } else {
        body
    };
    json_with_int_member(
        json_with_int_member(t0, "HostConfig"@, "NanoCpus"@, policy.nano_cpus as int),
        "HostConfig"@,
        "Memory"@,
        policy.default_memory_mb * 1048576,
    )
}

/// A body whose top-level value is of kind `top` and whose `HostConfig` is of
/// kind `host_config` gets the limits: `HostConfig` is an object, or is
/// missing (null) and can be added because the value is an object or null.
pub open spec fn receives_limits(top: JsonKind, host_config: JsonKind) -> bool {
    host_config == JsonKind::Object || (host_config == JsonKind::Null && top != JsonKind::Other)
}

/// The rewritten body: with the limits when it can take them, otherwise the
/// document as serde_json prints it.
pub open spec fn rewritten_body(body: Seq<char>, top: JsonKind, host_config: JsonKind, policy: AuthzPolicy) -> Seq<char> {
    if receives_limits(top, host_config) {
        limited_body(body, host_config, policy)
    } else {
        json_reprinted(body)
    }
}

/// The answer when the body is rewritten: allowed, with the injection message
/// and the rewritten body.
pub open spec fn injected_answer(res: AuthZRes, policy: AuthzPolicy, body: Seq<char>, top: JsonKind, host_config: JsonKind) -> bool {
    &&& res.Allow
    &&& res.Msg@ == injected_msg(policy.cpu_limit_text@, policy.default_memory_mb)
    &&& res.ModifiedRequestBody matches Some(b) && b@ == rewritten_body(body, top, host_config, policy)
}

/// The request is abandoned: `HostConfig` would have to be added to a value
/// that is neither an object nor null, or the memory limit in bytes does not
/// fit in 64 bits.
pub open spec fn abandons(top: JsonKind, host_config: JsonKind, memory_mb: u64) -> bool {
    (host_config == JsonKind::Null && top == JsonKind::Other)
        || (receives_limits(top, host_config) && memory_mb * 1048576 > u64::MAX)
}

/// What the policy does with a container creation whose body `body` has the
/// given kinds, while mutation is on.
pub open spec fn creation_outcome(
    r: InspectOutcome,
    policy: AuthzPolicy,
    body: Seq<char>,
    top: JsonKind,
    host_config: JsonKind,
) -> bool {
    if abandons(top, host_config, policy.default_memory_mb) {
        r is Abort
    } else {
        r matches InspectOutcome::Respond(res) && injected_answer(res, policy, body, top, host_config)
    }
}

fn answer(msg: String, body: Option<String>) -> (r: AuthZRes)
    ensures
        r.Allow,
        r.Msg@ == msg@,
        r.ModifiedRequestBody == body,
{
    AuthZRes { Allow: true, Msg: msg, ModifiedRequestBody: body }
}

impl GaramDockerAuthzEngine {
    /// The rewrite of a container creation body `body` whose top-level value
    /// is of kind `top` and whose `HostConfig` member is of kind `host_config`:
    /// a missing `HostConfig` is added as an empty object, `NanoCpus` and
    /// `Memory` (MiB times 1 MiB) are set in it, and the rewritten body is
    /// returned with the injection message.
    pub fn inject_limits(policy: &AuthzPolicy, body: &str, top: JsonKind, host_config: JsonKind) -> (r: InspectOutcome)
        ensures
            creation_outcome(r, *policy, body@, top, host_config),
    {
        if host_config == JsonKind::Null && top == JsonKind::Other {
            return InspectOutcome::Abort;
        }
        let modified_body = if host_config == JsonKind::Null || host_config == JsonKind::Object {
            if policy.default_memory_mb > 17592186044415 {
                return InspectOutcome::Abort;
            }
            let t0 = if host_config == JsonKind::Null {
                json_add_empty_member(body, "HostConfig")
            } else {
                String::from_str(body)
            };
            let t1 = json_put_i64(t0.as_str(), "HostConfig", "NanoCpus", policy.nano_cpus);
            let memory_bytes = policy.default_memory_mb * 1024 * 1024;
            json_put_u64(t1.as_str(), "HostConfig", "Memory", memory_bytes)
        } else {
            json_reprint(body)
        };
        let mut msg = String::from_str("GaramOS 안보법에 의거하여 자원 격벽(CPU: ");
        msg.append(policy.cpu_limit_text.as_str());
        msg.append("도막, RAM: ");
        let mb = u64_to_decimal(policy.default_memory_mb);
        msg.append(mb.as_str());
        msg.append("MB)이 강제 주입되었습니다.");
        InspectOutcome::Respond(answer(msg, Some(modified_body)))
    }

    /// The policy's decision on a request. Requests that do not create a
    /// container, and all requests while mutation is off, are allowed as they
    /// are; so is a creation whose body is missing or is not JSON. A creation
    /// with a JSON body gets the limits: see [`Self::inject_limits`].
    pub fn handle_inspect_request(policy: &AuthzPolicy, req: &AuthZReq) -> (r: InspectOutcome)
        ensures
            !has_infix(req.RequestURI@, "/containers/create"@) ==> (r matches InspectOutcome::Respond(res)
                && plain_answer(res, passed_msg())),
            has_infix(req.RequestURI@, "/containers/create"@) && !policy.enable_auto_mutation ==> (r matches InspectOutcome::Respond(res)
                && plain_answer(res, skipped_msg())),
            has_infix(req.RequestURI@, "/containers/create"@) && policy.enable_auto_mutation ==> match req.RequestBody {
                Some(b) => match json_document_shape(b@, "HostConfig"@) {
                    Some(shape) => creation_outcome(r, *policy, b@, shape.0, shape.1),
                    None => r matches InspectOutcome::Respond(res) && plain_answer(res, passed_msg()),
                },
                None => r matches InspectOutcome::Respond(res) && plain_answer(res, passed_msg()),
            },
    {
        let uri = chars_of(req.RequestURI.as_str());
        if contains_chars(uri.as_slice(), chars_of("/containers/create").as_slice()) {
            if !policy.enable_auto_mutation {
                return InspectOutcome::Respond(
                    answer(String::from_str("GaramOS Core Security Passed (Mutation Skipped)."), None),
                );
            }
            match &req.RequestBody {
                Some(body_raw) => {
                    match json_shape(body_raw.as_str(), "HostConfig") {
                        Some((top, host_config)) => {
                            return Self::inject_limits(policy, body_raw.as_str(), top, host_config);
                        },
                        None => {},
                    }
                },
                None => {},
            }
        }
        InspectOutcome::Respond(answer(String::from_str("GaramOS Core Security Passed."), None))
    }

    /// The answer to a response notification: always allowed.
    pub fn handle_response_noop() -> (r: AuthZRes)
        ensures
            plain_answer(r, "Success"@),
    {
        answer(String::from_str("Success"), None)
    }
}

} // verus!
