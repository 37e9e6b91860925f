//! The open event shape. A decoded payload document is pulled apart into the
//! known fields; everything unrecognized is retained as an opaque bag. The
//! message extractor then derives at most one display message from the
//! mutually exclusive sources, in a fixed priority order.

use vstd::prelude::*;

use crate::errors::CoreError;
use crate::json::{spec_field, spec_json_text, spec_obj_get, JsonValue};
use crate::text::str_eq;
use vstd::string::StringExecFns;

verus! {

broadcast use vstd::string::group_string_axioms;

/// A formatted-message object: only `formatted` is displayed; `message` and
/// `params` ride along.
pub struct Message {
    pub message: JsonValue,
    pub formatted: String,
    pub params: JsonValue,
}

/// A structured log entry; its `message` is the preferred display message.
pub struct LogEntry {
    pub message: String,
    pub unknown: Vec<(String, JsonValue)>,
}

/// One parsed event payload: the known fields, each still as loose as the
/// wire format allows, plus the retained bag of unrecognized members.
pub struct LogEvent {
    pub timestamp: JsonValue,
    pub logentry: Option<LogEntry>,
    pub message: Option<Message>,
    pub contexts: Vec<(String, JsonValue)>,
    pub environment: Option<String>,
    pub event_id: String,
    pub platform: String,
    pub sdk: Vec<(String, JsonValue)>,
    pub server_name: Option<String>,
    pub exception: Option<JsonValue>,
    pub user: Vec<(String, JsonValue)>,
    pub extra: Vec<(String, JsonValue)>,
    pub breadcrumbs: JsonValue,
    pub tags: Vec<(String, JsonValue)>,
    pub level: String,
    pub fingerprint: Option<Vec<String>>,
    pub unknown: Vec<(String, JsonValue)>,
}

/// Whether an optional member may stand for an optional string: absent,
/// null, or a string.
pub open spec fn spec_opt_str_ok(f: Option<JsonValue>) -> bool {
    match f {
        None => true,
        Some(JsonValue::Null) => true,
        Some(JsonValue::Str(_)) => true,
        Some(_) => false,
    }
}

/// The string an optional member stands for, when it holds one.
pub open spec fn spec_opt_str_view(f: Option<JsonValue>) -> Option<Seq<char>> {
    match f {
        Some(JsonValue::Str(s)) => Some(s@),
        _ => None,
    }
}

/// Whether an optional member may stand for an open document: absent or an
/// object.
pub open spec fn spec_opt_obj_ok(f: Option<JsonValue>) -> bool {
    match f {
        None => true,
        Some(JsonValue::Obj(_)) => true,
        Some(_) => false,
    }
}

/// The members an optional open-document field stands for: its own when
/// present, none when absent.
pub open spec fn spec_opt_obj_view(f: Option<JsonValue>) -> Seq<(String, JsonValue)> {
    match f {
        Some(JsonValue::Obj(fields)) => fields@,
        _ => Seq::<(String, JsonValue)>::empty(),
    }
}

/// Whether the `logentry` member is acceptable: absent, null, or an object
/// whose `message` member is a string.
pub open spec fn spec_logentry_ok(f: Option<JsonValue>) -> bool {
    match f {
        None => true,
        Some(JsonValue::Null) => true,
        Some(JsonValue::Obj(fields)) => (spec_obj_get(fields@, "message"@) matches Some(
            JsonValue::Str(_),
        )),
        Some(_) => false,
    }
}

/// The log-entry message the `logentry` member carries, if any.
pub open spec fn spec_logentry_msg(f: Option<JsonValue>) -> Option<Seq<char>> {
    match f {
        Some(JsonValue::Obj(fields)) => match spec_obj_get(fields@, "message"@) {
            Some(JsonValue::Str(s)) => Some(s@),
            _ => None,
        },
        _ => None,
    }
}

/// Whether the `message` member is acceptable: absent, null, or an object
/// with a string `formatted` member and `message` and `params` members.
pub open spec fn spec_message_ok(f: Option<JsonValue>) -> bool {
    match f {
        None => true,
        Some(JsonValue::Null) => true,
        Some(JsonValue::Obj(fields)) => {
            &&& (spec_obj_get(fields@, "formatted"@) matches Some(JsonValue::Str(_)))
            &&& spec_obj_get(fields@, "message"@) is Some
            &&& spec_obj_get(fields@, "params"@) is Some
        },
        Some(_) => false,
    }
}

/// The formatted message the `message` member carries, if any.
pub open spec fn spec_formatted_msg(f: Option<JsonValue>) -> Option<Seq<char>> {
    match f {
        Some(JsonValue::Obj(fields)) => match spec_obj_get(fields@, "formatted"@) {
            Some(JsonValue::Str(s)) => Some(s@),
            _ => None,
        },
        _ => None,
    }
}

/// Whether the `fingerprint` member is acceptable: absent, null, or an
/// array of strings.
pub open spec fn spec_fingerprint_ok(f: Option<JsonValue>) -> bool {
    match f {
        None => true,
        Some(JsonValue::Null) => true,
        Some(JsonValue::Arr(items)) => forall|i: int|
            0 <= i < items@.len() ==> (#[trigger] items@[i] matches JsonValue::Str(_)),
        Some(_) => false,
    }
}

/// Whether an optional member may stand for a string with a default: absent
/// or a string (null is not accepted here).
pub open spec fn spec_level_ok(f: Option<JsonValue>) -> bool {
    match f {
        None => true,
        Some(JsonValue::Str(_)) => true,
        Some(_) => false,
    }
}

/// The severity an event names, or the default.
pub open spec fn spec_level_view(f: Option<JsonValue>) -> Seq<char> {
    match f {
        Some(JsonValue::Str(s)) => s@,
        _ => "error"@,
    }
}

/// Whether `v` is a well-formed event document: an object whose required
/// members are present with their required shapes, and whose optional
/// members, where present, have theirs.
pub open spec fn spec_event_ok(v: JsonValue) -> bool {
    &&& v matches JsonValue::Obj(_)
    &&& spec_field(v, "timestamp"@) is Some
    &&& (spec_field(v, "event_id"@) matches Some(JsonValue::Str(_)))
    &&& (spec_field(v, "platform"@) matches Some(JsonValue::Str(_)))
    &&& (spec_field(v, "sdk"@) matches Some(JsonValue::Obj(_)))
    &&& (spec_field(v, "contexts"@) matches Some(JsonValue::Obj(_)))
    &&& spec_opt_str_ok(spec_field(v, "environment"@))
    &&& spec_opt_str_ok(spec_field(v, "server_name"@))
    &&& spec_level_ok(spec_field(v, "level"@))
    &&& spec_opt_obj_ok(spec_field(v, "user"@))
    &&& spec_opt_obj_ok(spec_field(v, "extra"@))
    &&& spec_opt_obj_ok(spec_field(v, "tags"@))
    &&& spec_logentry_ok(spec_field(v, "logentry"@))
    &&& spec_message_ok(spec_field(v, "message"@))
    &&& spec_fingerprint_ok(spec_field(v, "fingerprint"@))
}

/// The `breadcrumbs` member, or the default empty document.
pub open spec fn spec_breadcrumbs_view(f: Option<JsonValue>) -> Seq<char> {
    match f {
        Some(b) => spec_json_text(b),
        None => "{}"@,
    }
}

/// The string an optional string field carries.
pub open spec fn spec_opt_view(o: Option<String>) -> Option<Seq<char>> {
    match o {
        Some(s) => Some(s@),
        None => None,
    }
}

/// The exception payload an event carries: absent and null both mean none.
pub open spec fn spec_exception_view(f: Option<JsonValue>) -> Option<JsonValue> {
    match f {
        None => None,
        Some(JsonValue::Null) => None,
        Some(x) => Some(x),
    }
}

#[verifier::loop_isolation(false)]
fn parse_logentry_obj(fields: Vec<(String, JsonValue)>) -> (r: Result<LogEntry, CoreError>)
    ensures
        r is Ok <==> (spec_obj_get(fields@, "message"@) matches Some(JsonValue::Str(_))),
        r matches Err(e) ==> e == CoreError::DecodeError,
        r matches Ok(le) ==> spec_obj_get(fields@, "message"@) == Some(
            JsonValue::Str(le.message),
        ),
{
    let ghost orig = fields@;
    let n: usize = fields.len();
    let mut rest = fields;
    let mut msg: Option<String> = None;
    let mut unknown: Vec<(String, JsonValue)> = Vec::new();
    let mut i: usize = 0;
    assert(orig.subrange(0, 0) =~= Seq::<(String, JsonValue)>::empty());
    while rest.len() > 0
        invariant
            n == orig.len(),
            i + rest@.len() == n,
            rest@ =~= orig.skip(i as int),
            (match msg {
                Some(m) => spec_obj_get(orig.subrange(0, i as int), "message"@) == Some(
                    JsonValue::Str(m),
                ),
                None => spec_obj_get(orig.subrange(0, i as int), "message"@) is None,
            }),
        decreases rest@.len(),
    {
        let pair = rest.remove(0);
        let ghost p = pair;
        proof {
            assert(p == orig[i as int]);
            assert(orig.subrange(0, i as int + 1) =~= orig.subrange(0, i as int).push(p));
            crate::json::lemma_obj_get_push(orig.subrange(0, i as int), p, "message"@);
        }
        if str_eq(pair.0.as_str(), "message") {
            if msg.is_none() {
                let (_, val) = pair;
                match val {
                    JsonValue::Str(text) => {
                        msg = Some(text);
                    },
                    other => {
                        proof {
                            assert(!(p.1 matches JsonValue::Str(_)));
                            lemma_obj_get_extend(orig, i as int + 1, "message"@);
                            assert(spec_obj_get(orig, "message"@) == Some(p.1));
                        }
                        return Err(CoreError::DecodeError);
                    },
                }
            }
        } else {
            unknown.push(pair);
        }
        i = i + 1;
    }
    assert(orig.subrange(0, i as int) =~= orig);
    assert(orig == fields@);
    match msg {
        Some(m) => Ok(LogEntry { message: m, unknown }),
        None => Err(CoreError::DecodeError),
    }
}

/// When the first occurrence of `key` lies inside the prefix, the whole
/// sequence finds the same member.
proof fn lemma_obj_get_extend(s: Seq<(String, JsonValue)>, i: int, key: Seq<char>)
    requires
        0 <= i <= s.len(),
        spec_obj_get(s.subrange(0, i), key) is Some,
    ensures
        spec_obj_get(s, key) == spec_obj_get(s.subrange(0, i), key),
    decreases i,
{
    if i > 0 {
        if s.subrange(0, i)[0].0@ == key {
            assert(s[0] == s.subrange(0, i)[0]);
        } else {
            assert(s.subrange(0, i).skip(1) =~= s.skip(1).subrange(0, i - 1));
            lemma_obj_get_extend(s.skip(1), i - 1, key);
            assert(s.subrange(0, i)[0] == s[0]);
        }
    }
}

#[verifier::loop_isolation(false)]
fn parse_message_obj(fields: Vec<(String, JsonValue)>) -> (r: Result<Message, CoreError>)
    ensures
        r is Ok <==> ((spec_obj_get(fields@, "formatted"@) matches Some(JsonValue::Str(_)))
            && spec_obj_get(fields@, "message"@) is Some && spec_obj_get(fields@, "params"@)
            is Some),
        r matches Err(e) ==> e == CoreError::DecodeError,
        r matches Ok(m) ==> spec_obj_get(fields@, "formatted"@) == Some(
            JsonValue::Str(m.formatted),
        ),
{
    let ghost orig = fields@;
    let n: usize = fields.len();
    let mut rest = fields;
    let mut message: Option<JsonValue> = None;
    let mut formatted: Option<JsonValue> = None;
    let mut params: Option<JsonValue> = None;
    let mut i: usize = 0;
    assert(orig.subrange(0, 0) =~= Seq::<(String, JsonValue)>::empty());
    while rest.len() > 0
        invariant
            n == orig.len(),
            i + rest@.len() == n,
            rest@ =~= orig.skip(i as int),
            message == spec_obj_get(orig.subrange(0, i as int), "message"@),
            formatted == spec_obj_get(orig.subrange(0, i as int), "formatted"@),
            params == spec_obj_get(orig.subrange(0, i as int), "params"@),
        decreases rest@.len(),
    {
        let pair = rest.remove(0);
        let ghost p = pair;
        let (key_str, val) = pair;
        proof {
            reveal_strlit("message");
            reveal_strlit("formatted");
            reveal_strlit("params");
            assert(p == orig[i as int]);
            assert(p.0 == key_str && p.1 == val);
            assert(orig.subrange(0, i as int + 1) =~= orig.subrange(0, i as int).push(p));
            crate::json::lemma_obj_get_push(orig.subrange(0, i as int), p, "message"@);
            crate::json::lemma_obj_get_push(orig.subrange(0, i as int), p, "formatted"@);
            crate::json::lemma_obj_get_push(orig.subrange(0, i as int), p, "params"@);
            assert("message"@.len() == 7);
            assert("formatted"@.len() == 9);
            assert("params"@.len() == 6);
        }
        if str_eq(key_str.as_str(), "message") {
            if message.is_none() {
                message = Some(val);
            }
        } else if str_eq(key_str.as_str(), "formatted") {
            if formatted.is_none() {
                formatted = Some(val);
            }
        } else if str_eq(key_str.as_str(), "params") {
            if params.is_none() {
                params = Some(val);
            }
        }
        i = i + 1;
    }
    assert(orig.subrange(0, i as int) =~= orig);
    let message = match message {
        Some(m) => m,
        None => {
            return Err(CoreError::DecodeError);
        },
    };
    let params = match params {
        Some(p) => p,
        None => {
            return Err(CoreError::DecodeError);
        },
    };
    match formatted {
        Some(JsonValue::Str(f)) => Ok(Message { message, formatted: f, params }),
        _ => Err(CoreError::DecodeError),
    }
}

#[verifier::loop_isolation(false)]
fn parse_fingerprint(items: Vec<JsonValue>) -> (r: Result<Vec<String>, CoreError>)
    ensures
        r is Ok <==> (forall|i: int|
            0 <= i < items@.len() ==> (#[trigger] items@[i] matches JsonValue::Str(_))),
        r matches Err(e) ==> e == CoreError::DecodeError,
{
    let ghost orig = items@;
    let n: usize = items.len();
    let mut rest = items;
    let mut out: Vec<String> = Vec::new();
    let mut i: usize = 0;
    while rest.len() > 0
        invariant
            n == orig.len(),
            i + rest@.len() == n,
            rest@ =~= orig.skip(i as int),
            forall|j: int| 0 <= j < i ==> (#[trigger] orig[j] matches JsonValue::Str(_)),
        decreases rest@.len(),
    {
        let item = rest.remove(0);
        let ghost it = item;
        proof {
            assert(it == orig[i as int]);
        }
        match item {
            JsonValue::Str(s) => {
                out.push(s);
            },
            other => {
                proof {
                    assert(!(orig[i as int] matches JsonValue::Str(_)));
                }
                return Err(CoreError::DecodeError);
            },
        }
        i = i + 1;
    }
    Ok(out)
}

proof fn lemma_keys_distinct()
    ensures
        "timestamp"@.len() == 9,
        "logentry"@.len() == 8,
        "message"@.len() == 7,
        "contexts"@.len() == 8,
        "environment"@.len() == 11,
        "event_id"@.len() == 8,
        "platform"@.len() == 8,
        "sdk"@.len() == 3,
        "server_name"@.len() == 11,
        "exception"@.len() == 9,
        "user"@.len() == 4,
        "extra"@.len() == 5,
        "breadcrumbs"@.len() == 11,
        "tags"@.len() == 4,
        "level"@.len() == 5,
        "fingerprint"@.len() == 11,
        "logentry"@ != "contexts"@,
        "logentry"@ != "event_id"@,
        "logentry"@ != "platform"@,
        "contexts"@ != "event_id"@,
        "contexts"@ != "platform"@,
        "event_id"@ != "platform"@,
        "timestamp"@ != "exception"@,
        "environment"@ != "server_name"@,
        "environment"@ != "breadcrumbs"@,
        "environment"@ != "fingerprint"@,
        "server_name"@ != "breadcrumbs"@,
        "server_name"@ != "fingerprint"@,
        "breadcrumbs"@ != "fingerprint"@,
        "user"@ != "tags"@,
        "extra"@ != "level"@,
{
    reveal_strlit("timestamp");
    reveal_strlit("logentry");
    reveal_strlit("message");
    reveal_strlit("contexts");
    reveal_strlit("environment");
    reveal_strlit("event_id");
    reveal_strlit("platform");
    reveal_strlit("sdk");
    reveal_strlit("server_name");
    reveal_strlit("exception");
    reveal_strlit("user");
    reveal_strlit("extra");
    reveal_strlit("breadcrumbs");
    reveal_strlit("tags");
    reveal_strlit("level");
    reveal_strlit("fingerprint");
    assert("logentry"@[0] == 'l' && "contexts"@[0] == 'c' && "event_id"@[0] == 'e'
        && "platform"@[0] == 'p');
    assert("timestamp"@[0] == 't' && "exception"@[0] == 'e');
    assert("environment"@[0] == 'e' && "server_name"@[0] == 's' && "breadcrumbs"@[0] == 'b'
        && "fingerprint"@[0] == 'f');
    assert("user"@[0] == 'u' && "tags"@[0] == 't');
    assert("extra"@[0] == 'e' && "level"@[0] == 'l');
}

/// Parses one decoded payload document into the open event shape, or
/// reports it undecodable. Success is owed exactly on well-formed event
/// documents, and each field of the event is the corresponding member of the
/// document, with the documented defaults where a member is absent.
#[verifier::loop_isolation(false)]
#[verifier::rlimit(100)]
pub fn parse_event(v: JsonValue) -> (r: Result<LogEvent, CoreError>)
    ensures
        r is Ok <==> spec_event_ok(v),
        r matches Err(e) ==> e == CoreError::DecodeError,
        r matches Ok(ev) ==> {
            &&& Some(ev.timestamp) == spec_field(v, "timestamp"@)
            &&& Some(JsonValue::Str(ev.event_id)) == spec_field(v, "event_id"@)
            &&& Some(JsonValue::Str(ev.platform)) == spec_field(v, "platform"@)
            &&& spec_field(v, "sdk"@) == Some(JsonValue::Obj(ev.sdk))
            &&& spec_field(v, "contexts"@) == Some(JsonValue::Obj(ev.contexts))
            &&& spec_opt_view(ev.environment) == spec_opt_str_view(spec_field(v, "environment"@))
            &&& spec_opt_view(ev.server_name) == spec_opt_str_view(spec_field(v, "server_name"@))
            &&& ev.level@ == spec_level_view(spec_field(v, "level"@))
            &&& ev.user@ == spec_opt_obj_view(spec_field(v, "user"@))
            &&& ev.extra@ == spec_opt_obj_view(spec_field(v, "extra"@))
            &&& ev.tags@ == spec_opt_obj_view(spec_field(v, "tags"@))
            &&& (match spec_field(v, "breadcrumbs"@) {
                Some(b) => ev.breadcrumbs == b,
                None => (ev.breadcrumbs matches JsonValue::Obj(f) && f@.len() == 0),
            })
            &&& ev.exception == spec_exception_view(spec_field(v, "exception"@))
            &&& (ev.logentry is Some <==> spec_logentry_msg(spec_field(v, "logentry"@)) is Some)
            &&& (ev.logentry matches Some(le) ==> Some(le.message@) == spec_logentry_msg(
                spec_field(v, "logentry"@),
            ))
            &&& (ev.message is Some <==> spec_formatted_msg(spec_field(v, "message"@)) is Some)
            &&& (ev.message matches Some(m) ==> Some(m.formatted@) == spec_formatted_msg(
                spec_field(v, "message"@),
            ))
        },
{
    proof {
        lemma_keys_distinct();
    }
    let fields: Vec<(String, JsonValue)> = match v {
        JsonValue::Obj(fields) => fields,
        _ => {
            return Err(CoreError::DecodeError);
        },
    };
    let ghost orig = fields@;
    let n: usize = fields.len();
    let mut rest = fields;
    let mut f_timestamp: Option<JsonValue> = None;
    let mut f_logentry: Option<JsonValue> = None;
    let mut f_message: Option<JsonValue> = None;
    let mut f_contexts: Option<JsonValue> = None;
    let mut f_environment: Option<JsonValue> = None;
    let mut f_event_id: Option<JsonValue> = None;
    let mut f_platform: Option<JsonValue> = None;
    let mut f_sdk: Option<JsonValue> = None;
    let mut f_server_name: Option<JsonValue> = None;
    let mut f_exception: Option<JsonValue> = None;
    let mut f_user: Option<JsonValue> = None;
    let mut f_extra: Option<JsonValue> = None;
    let mut f_breadcrumbs: Option<JsonValue> = None;
    let mut f_tags: Option<JsonValue> = None;
    let mut f_level: Option<JsonValue> = None;
    let mut f_fingerprint: Option<JsonValue> = None;
    let mut unknown: Vec<(String, JsonValue)> = Vec::new();
    let mut i: usize = 0;
    assert(orig.subrange(0, 0) =~= Seq::<(String, JsonValue)>::empty());
    while rest.len() > 0
        invariant
            i + rest@.len() == n,
            rest@ =~= orig.skip(i as int),
            f_timestamp == spec_obj_get(orig.subrange(0, i as int), "timestamp"@),
            f_logentry == spec_obj_get(orig.subrange(0, i as int), "logentry"@),
            f_message == spec_obj_get(orig.subrange(0, i as int), "message"@),
            f_contexts == spec_obj_get(orig.subrange(0, i as int), "contexts"@),
            f_environment == spec_obj_get(orig.subrange(0, i as int), "environment"@),
            f_event_id == spec_obj_get(orig.subrange(0, i as int), "event_id"@),
            f_platform == spec_obj_get(orig.subrange(0, i as int), "platform"@),
            f_sdk == spec_obj_get(orig.subrange(0, i as int), "sdk"@),
            f_server_name == spec_obj_get(orig.subrange(0, i as int), "server_name"@),
            f_exception == spec_obj_get(orig.subrange(0, i as int), "exception"@),
            f_user == spec_obj_get(orig.subrange(0, i as int), "user"@),
            f_extra == spec_obj_get(orig.subrange(0, i as int), "extra"@),
            f_breadcrumbs == spec_obj_get(orig.subrange(0, i as int), "breadcrumbs"@),
            f_tags == spec_obj_get(orig.subrange(0, i as int), "tags"@),
            f_level == spec_obj_get(orig.subrange(0, i as int), "level"@),
            f_fingerprint == spec_obj_get(orig.subrange(0, i as int), "fingerprint"@),
        decreases rest@.len(),
    {
        let pair = rest.remove(0);
        let ghost p = pair;
        proof {
            assert(p == orig[i as int]);
            assert(orig.subrange(0, i as int + 1) =~= orig.subrange(0, i as int).push(p));
            crate::json::lemma_obj_get_push(orig.subrange(0, i as int), p, "timestamp"@);
            crate::json::lemma_obj_get_push(orig.subrange(0, i as int), p, "logentry"@);
            crate::json::lemma_obj_get_push(orig.subrange(0, i as int), p, "message"@);
            crate::json::lemma_obj_get_push(orig.subrange(0, i as int), p, "contexts"@);
            crate::json::lemma_obj_get_push(orig.subrange(0, i as int), p, "environment"@);
            crate::json::lemma_obj_get_push(orig.subrange(0, i as int), p, "event_id"@);
            crate::json::lemma_obj_get_push(orig.subrange(0, i as int), p, "platform"@);
            crate::json::lemma_obj_get_push(orig.subrange(0, i as int), p, "sdk"@);
            crate::json::lemma_obj_get_push(orig.subrange(0, i as int), p, "server_name"@);
            crate::json::lemma_obj_get_push(orig.subrange(0, i as int), p, "exception"@);
            crate::json::lemma_obj_get_push(orig.subrange(0, i as int), p, "user"@);
            crate::json::lemma_obj_get_push(orig.subrange(0, i as int), p, "extra"@);
            crate::json::lemma_obj_get_push(orig.subrange(0, i as int), p, "breadcrumbs"@);
            crate::json::lemma_obj_get_push(orig.subrange(0, i as int), p, "tags"@);
            crate::json::lemma_obj_get_push(orig.subrange(0, i as int), p, "level"@);
            crate::json::lemma_obj_get_push(orig.subrange(0, i as int), p, "fingerprint"@);
        }
        let (key_str, val) = pair;
        if str_eq(key_str.as_str(), "timestamp") {
            if f_timestamp.is_none() {
                f_timestamp = Some(val);
            }
        } else if str_eq(key_str.as_str(), "logentry") {
            if f_logentry.is_none() {
                f_logentry = Some(val);
            }
        } else if str_eq(key_str.as_str(), "message") {
            if f_message.is_none() {
                f_message = Some(val);
            }
        } else if str_eq(key_str.as_str(), "contexts") {
            if f_contexts.is_none() {
                f_contexts = Some(val);
            }
        } else if str_eq(key_str.as_str(), "environment") {
            if f_environment.is_none() {
                f_environment = Some(val);
            }
        } else if str_eq(key_str.as_str(), "event_id") {
            if f_event_id.is_none() {
                f_event_id = Some(val);
            }
        } else if str_eq(key_str.as_str(), "platform") {
            if f_platform.is_none() {
                f_platform = Some(val);
            }
        } else if str_eq(key_str.as_str(), "sdk") {
            if f_sdk.is_none() {
                f_sdk = Some(val);
            }
        } else if str_eq(key_str.as_str(), "server_name") {
            if f_server_name.is_none() {
                f_server_name = Some(val);
            }
        } else if str_eq(key_str.as_str(), "exception") {
            if f_exception.is_none() {
                f_exception = Some(val);
            }
        } else if str_eq(key_str.as_str(), "user") {
            if f_user.is_none() {
                f_user = Some(val);
            }
        } else if str_eq(key_str.as_str(), "extra") {
            if f_extra.is_none() {
                f_extra = Some(val);
            }
        } else if str_eq(key_str.as_str(), "breadcrumbs") {
            if f_breadcrumbs.is_none() {
                f_breadcrumbs = Some(val);
            }
        } else if str_eq(key_str.as_str(), "tags") {
            if f_tags.is_none() {
                f_tags = Some(val);
            }
        } else if str_eq(key_str.as_str(), "level") {
            if f_level.is_none() {
                f_level = Some(val);
            }
        } else if str_eq(key_str.as_str(), "fingerprint") {
            if f_fingerprint.is_none() {
                f_fingerprint = Some(val);
            }
        } else {
            unknown.push((key_str, val));
        }
        i = i + 1;
    }
    assert(orig.subrange(0, i as int) =~= orig);
    let timestamp: JsonValue = match f_timestamp {
        Some(t) => t,
        None => {
            return Err(CoreError::DecodeError);
        },
    };
    let event_id: String = match f_event_id {
        Some(JsonValue::Str(s)) => s,
        _ => {
            return Err(CoreError::DecodeError);
        },
    };
    let platform: String = match f_platform {
        Some(JsonValue::Str(s)) => s,
        _ => {
            return Err(CoreError::DecodeError);
        },
    };
    let sdk: Vec<(String, JsonValue)> = match f_sdk {
        Some(JsonValue::Obj(f)) => f,
        _ => {
            return Err(CoreError::DecodeError);
        },
    };
    let contexts: Vec<(String, JsonValue)> = match f_contexts {
        Some(JsonValue::Obj(f)) => f,
        _ => {
            return Err(CoreError::DecodeError);
        },
    };
    let environment: Option<String> = match f_environment {
        None => None,
        Some(JsonValue::Null) => None,
        Some(JsonValue::Str(s)) => Some(s),
        Some(_) => {
            return Err(CoreError::DecodeError);
        },
    };
    let server_name: Option<String> = match f_server_name {
        None => None,
        Some(JsonValue::Null) => None,
        Some(JsonValue::Str(s)) => Some(s),
        Some(_) => {
            return Err(CoreError::DecodeError);
        },
    };
    let level: String = match f_level {
        None => crate::default_log_level(),
        Some(JsonValue::Str(s)) => s,
        Some(_) => {
            return Err(CoreError::DecodeError);
        },
    };
    let user: Vec<(String, JsonValue)> = match f_user {
        None => Vec::new(),
        Some(JsonValue::Obj(f)) => f,
        Some(_) => {
            return Err(CoreError::DecodeError);
        },
    };
    let extra: Vec<(String, JsonValue)> = match f_extra {
        None => Vec::new(),
        Some(JsonValue::Obj(f)) => f,
        Some(_) => {
            return Err(CoreError::DecodeError);
        },
    };
    let tags: Vec<(String, JsonValue)> = match f_tags {
        None => Vec::new(),
        Some(JsonValue::Obj(f)) => f,
        Some(_) => {
            return Err(CoreError::DecodeError);
        },
    };
    let breadcrumbs: JsonValue = match f_breadcrumbs {
        None => crate::json::empty_object(),
        Some(b) => b,
    };
    let exception: Option<JsonValue> = match f_exception {
        None => None,
        Some(JsonValue::Null) => None,
        Some(x) => Some(x),
    };
    let logentry: Option<LogEntry> = match f_logentry {
        None => None,
        Some(JsonValue::Null) => None,
        Some(JsonValue::Obj(f)) => match parse_logentry_obj(f) {
            Ok(le) => Some(le),
            Err(e) => {
                return Err(e);
            },
        },
        Some(_) => {
            return Err(CoreError::DecodeError);
        },
    };
    let message: Option<Message> = match f_message {
        None => None,
        Some(JsonValue::Null) => None,
        Some(JsonValue::Obj(f)) => match parse_message_obj(f) {
            Ok(m) => Some(m),
            Err(e) => {
                return Err(e);
            },
        },
        Some(_) => {
            return Err(CoreError::DecodeError);
        },
    };
    let fingerprint: Option<Vec<String>> = match f_fingerprint {
        None => None,
        Some(JsonValue::Null) => None,
        Some(JsonValue::Arr(items)) => match parse_fingerprint(items) {
            Ok(fp) => Some(fp),
            Err(e) => {
                return Err(e);
            },
        },
        Some(_) => {
            return Err(CoreError::DecodeError);
        },
    };
    Ok(
        LogEvent {
            timestamp,
            logentry,
            message,
            contexts,
            environment,
            event_id,
            platform,
            sdk,
            server_name,
            exception,
            user,
            extra,
            breadcrumbs,
            tags,
            level,
            fingerprint,
            unknown,
        },
    )
}

/// One step of a `0` path token: the first element of an array, or the
/// member named `0` of an object.
pub open spec fn spec_ptr0(v: JsonValue) -> Option<JsonValue> {
    match v {
        JsonValue::Arr(items) => if items@.len() > 0 {
            Some(items@[0])
        } else {
            None
        },
        JsonValue::Obj(fields) => spec_obj_get(fields@, "0"@),
        _ => None,
    }
}

/// The string at the nested `values/0/value` path of an exception payload.
pub open spec fn spec_values0value(e: JsonValue) -> Option<Seq<char>> {
    match spec_field(e, "values"@) {
        Some(inner) => match spec_ptr0(inner) {
            Some(entry) => match spec_field(entry, "value"@) {
                Some(JsonValue::Str(s)) => Some(s@),
                _ => None,
            },
            None => None,
        },
        None => None,
    }
}

/// The string at the flat `0/value` path of an exception payload.
pub open spec fn spec_flat0value(e: JsonValue) -> Option<Seq<char>> {
    match spec_ptr0(e) {
        Some(entry) => match spec_field(entry, "value"@) {
            Some(JsonValue::Str(s)) => Some(s@),
            _ => None,
        },
        None => None,
    }
}

/// The display message derived from the three sources, tried in priority
/// order, stopping at the first that yields a non-empty string: the log
/// entry's message, the formatted message, the first exception entry's
/// `value` (nested path first, then flat), and finally the whole exception
/// payload serialized. No source at all means no message.
pub open spec fn spec_extract_message(
    le_msg: Option<Seq<char>>,
    formatted: Option<Seq<char>>,
    exception: Option<JsonValue>,
) -> Option<Seq<char>> {
    if le_msg matches Some(m) && m.len() > 0 {
        Some(le_msg->0)
    } else if formatted matches Some(f) && f.len() > 0 {
        Some(formatted->0)
    } else {
        match exception {
            Some(e) => if spec_values0value(e) matches Some(s) && s.len() > 0 {
                Some(spec_values0value(e)->0)
            } else if spec_flat0value(e) matches Some(s) && s.len() > 0 {
                Some(spec_flat0value(e)->0)
            } else {
                Some(spec_json_text(e))
            },
            None => None,
        }
    }
}

/// The log-entry message of a parsed event, as the extractor sees it.
pub open spec fn spec_le_msg_of(ev: LogEvent) -> Option<Seq<char>> {
    match ev.logentry {
        Some(le) => Some(le.message@),
        None => None,
    }
}

/// The formatted message of a parsed event, as the extractor sees it.
pub open spec fn spec_formatted_of(ev: LogEvent) -> Option<Seq<char>> {
    match ev.message {
        Some(m) => Some(m.formatted@),
        None => None,
    }
}

fn ptr0<'a>(v: &'a JsonValue) -> (r: Option<&'a JsonValue>)
    ensures
        match r {
            Some(x) => spec_ptr0(*v) == Some(*x),
            None => spec_ptr0(*v) is None,
        },
{
    match v {
        JsonValue::Arr(items) => {
            if items.len() > 0 {
                Some(&items[0])
            } else {
                None
            }
        },
        JsonValue::Obj(fields) => crate::json::obj_get(fields, "0"),
        _ => None,
    }
}

fn str_field<'a>(v: &'a JsonValue, key: &str) -> (r: Option<&'a String>)
    ensures
        match r {
            Some(s) => (spec_field(*v, key@) matches Some(JsonValue::Str(x)) && x == *s),
            None => !(spec_field(*v, key@) matches Some(JsonValue::Str(_))),
        },
{
    match v {
        JsonValue::Obj(fields) => match crate::json::obj_get(fields, key) {
            Some(JsonValue::Str(s)) => Some(s),
            _ => None,
        },
        _ => None,
    }
}

fn values0value<'a>(e: &'a JsonValue) -> (r: Option<&'a String>)
    ensures
        match r {
            Some(s) => spec_values0value(*e) == Some(s@),
            None => spec_values0value(*e) is None,
        },
{
    let inner = match e {
        JsonValue::Obj(fields) => match crate::json::obj_get(fields, "values") {
            Some(x) => x,
            None => {
                return None;
            },
        },
        _ => {
            return None;
        },
    };
    let entry = match ptr0(inner) {
        Some(x) => x,
        None => {
            return None;
        },
    };
    str_field(entry, "value")
}

fn flat0value<'a>(e: &'a JsonValue) -> (r: Option<&'a String>)
    ensures
        match r {
            Some(s) => spec_flat0value(*e) == Some(s@),
            None => spec_flat0value(*e) is None,
        },
{
    let entry = match ptr0(e) {
        Some(x) => x,
        None => {
            return None;
        },
    };
    str_field(entry, "value")
}

/// Derives at most one display message from the parsed event, trying the
/// log-entry message, the formatted message, the first exception entry's
/// `value` (nested `values/0/value` path, then flat `0/value` path), and the
/// serialized exception payload, in that order, stopping at the first
/// non-empty string. A pure function of the event.
pub fn extract_message(ev: &LogEvent) -> (r: Option<String>)
    ensures
        spec_opt_view(r) == spec_extract_message(
            spec_le_msg_of(*ev),
            spec_formatted_of(*ev),
            ev.exception,
        ),
{
    match &ev.logentry {
        Some(le) => {
            if !le.message.as_str().is_empty() {
                return Some(le.message.clone());
            }
        },
        None => {},
    }
    match &ev.message {
        Some(m) => {
            if !m.formatted.as_str().is_empty() {
                return Some(m.formatted.clone());
            }
        },
        None => {},
    }
    match &ev.exception {
        Some(e) => {
            match values0value(e) {
                Some(s) => {
                    if !s.as_str().is_empty() {
                        return Some(s.clone());
                    }
                },
                None => {},
            }
            match flat0value(e) {
                Some(s) => {
                    if !s.as_str().is_empty() {
                        return Some(s.clone());
                    }
                },
                None => {},
            }
            Some(crate::json::json_to_text(e))
        },
        None => None,
    }
}

} // verus!
