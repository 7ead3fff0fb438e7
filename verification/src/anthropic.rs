//! The Anthropic messages API as the provider speaks it: the request body,
//! the reading of a response and of a streamed one, and how failures are
//! classified. Sending requests and reading bytes off the wire is the
//! host's part.

use vstd::prelude::*;
use crate::agent::StreamEnd;
use crate::json::{JsonValue, compact_text, get_spec, json_compact, json_parse, parse_json};
use crate::provider::{
    EventView, KindView, event_view, events_view,
    AssistantResponse, Block, BlockKind, LlmError, LlmErrorKind, Message, StreamEvent, TokenUsage, ToolCallRequest,
    ToolDefinition, ToolResult,
};
use crate::shell_policy::{all_digits, digits_value};
use crate::text::{append_str, chars_of, eq_str, has_prefix, opt_view, push_char, string_of, trim_start};
use crate::tool_view::{decimal_spec};
use crate::tools::{str_of};

verus! {

/// The API the provider talks to when no base URL is given.
pub const DEFAULT_BASE_URL: &'static str = "https://api.anthropic.com";

/// The API version the provider asks for.
pub const API_VERSION: &'static str = "2023-06-01";

/// The token budget of every request.
pub const DEFAULT_MAX_TOKENS: u32 = 8096;

/// The user agent sent when none is configured.
pub const DEFAULT_USER_AGENT: &'static str = "auger-code/0.1.0";

/// The user agent to send: the configured one, or the default when it is
/// empty.
pub fn format_user_agent(user_agent: &str) -> (r: String)
    ensures
        r@ == if user_agent@.len() == 0 { DEFAULT_USER_AGENT@ } else { user_agent@ },
{
    let cs = chars_of(user_agent);
    if cs.len() == 0 {
        DEFAULT_USER_AGENT.to_owned()
    } else {
        user_agent.to_owned()
    }
}

/// `s` without the slashes at its end.
pub open spec fn trim_slashes(s: Seq<char>) -> Seq<char>
    decreases s.len(),
{
    if s.len() > 0 && s.last() == '/' { trim_slashes(s.drop_last()) } else { s }
}

/// The base of the API's URLs: the one given without trailing slashes, or
/// the default when none is given.
pub open spec fn api_base(base: Seq<char>) -> Seq<char> {
    trim_slashes(if base.len() == 0 { DEFAULT_BASE_URL@ } else { base })
}

/// The messages and models endpoints under the base URL `base`.
pub fn endpoints(base: &str) -> (r: (String, String))
    ensures
        r.0@ == api_base(base@) + "/v1/messages"@,
        r.1@ == api_base(base@) + "/v1/models"@,
{
    let cs = if chars_of(base).len() == 0 { chars_of(DEFAULT_BASE_URL) } else { chars_of(base) };
    let mut n = cs.len();
    assert(cs@.take(cs.len() as int) =~= cs@);
    while n > 0 && cs[n - 1] == '/'
        invariant
            n <= cs.len(),
            trim_slashes(cs@) == trim_slashes(cs@.take(n as int)),
        decreases n,
    {
        assert(cs@.take(n as int).drop_last() =~= cs@.take(n - 1));
        n = n - 1;
    }
    assert(cs@.subrange(0, n as int) =~= cs@.take(n as int));
    let root = string_of(&cs, 0, n);
    let mut messages = root.clone();
    append_str(&mut messages, "/v1/messages");
    let mut models = root;
    append_str(&mut models, "/v1/models");
    (messages, models)
}

/// The value of the decimal digits `d`, when there are some, all are
/// digits and the value fits in 64 bits.
pub open spec fn digits_u64(d: Seq<char>) -> Option<u64> {
    if d.len() > 0 && all_digits(d) && digits_value(d) <= u64::MAX { Some(digits_value(d) as u64) } else { None }
}

proof fn lemma_digits_grow(d: Seq<char>, i: int)
    requires
        0 <= i <= d.len(),
        all_digits(d),
    ensures
        0 <= digits_value(d.take(i)) <= digits_value(d),
    decreases d.len() - i,
{
    if i < d.len() {
        lemma_digits_grow(d, i + 1);
        assert(d.take(i + 1).drop_last() =~= d.take(i));
        assert(all_digits(d.take(i)));
        lemma_digits_positive(d.take(i));
    } else {
        assert(d.take(i) =~= d);
        lemma_digits_positive(d);
    }
}

proof fn lemma_digits_positive(d: Seq<char>)
    requires
        all_digits(d),
    ensures
        digits_value(d) >= 0,
    decreases d.len(),
{
    if d.len() > 0 {
        assert(all_digits(d.drop_last()));
        lemma_digits_positive(d.drop_last());
    }
}

/// The value of the characters of `cs` from `from` on as decimal digits
/// (see `digits_u64`).
pub fn parse_digits(cs: &Vec<char>, from: usize) -> (r: Option<u64>)
    requires
        from <= cs.len(),
    ensures
        r == digits_u64(cs@.skip(from as int)),
{
    let ghost d = cs@.skip(from as int);
    if from == cs.len() {
        return None;
    }
    let mut value: u64 = 0;
    let mut i: usize = from;
    while i < cs.len()
        invariant
            from <= i <= cs.len(),
            from < cs.len(),
            d == cs@.skip(from as int),
            all_digits(d.take(i - from)),
            value as int == digits_value(d.take(i - from)),
        decreases cs.len() - i,
    {
        let k: usize = i - from;
        assert(d.take(k + 1).drop_last() =~= d.take(k as int));
        let c = cs[i];
        assert(d[k as int] == c);
        if !('0' <= c && c <= '9') {
            assert(!all_digits(d));
            return None;
        }
        let digit = (c as u64) - ('0' as u64);
        assert(d.take(k + 1).last() == c);
        if value > (u64::MAX - digit) / 10 {
            proof {
                assert(value * 10 + digit > u64::MAX) by (nonlinear_arith)
                    requires
                        value > (u64::MAX - digit) / 10,
                        digit <= 9,
                ;
                if all_digits(d) {
                    lemma_digits_grow(d, k + 1);
                }
            }
            return None;
        }
        value = value * 10 + digit;
        i = i + 1;
    }
    assert(d.take(cs.len() - from) =~= d);
    Some(value)
}

/// What `str::parse::<u64>` reads from `s`: an optional `+` and decimal
/// digits whose value fits in 64 bits.
pub open spec fn parse_u64_spec(s: Seq<char>) -> Option<u64> {
    if s.len() > 0 && s[0] == '+' { digits_u64(s.drop_first()) } else { digits_u64(s) }
}

/// Reads a decimal `u64` as `str::parse::<u64>` does.
pub fn parse_u64(s: &str) -> (r: Option<u64>)
    ensures
        r == parse_u64_spec(s@),
{
    let cs = chars_of(s);
    if cs.len() > 0 && cs[0] == '+' {
        assert(cs@.skip(1) =~= cs@.drop_first());
        parse_digits(&cs, 1)
    } else {
        assert(cs@.skip(0) =~= cs@);
        parse_digits(&cs, 0)
    }
}

/// The number a JSON value holds, when it is a whole number that fits in
/// 64 signed bits (`Value::as_i64`): `serde_json` prints whole numbers as
/// decimal digits, with a minus sign when negative.
pub open spec fn number_i64(v: Option<JsonValue>) -> Option<i64> {
    match v {
        Some(JsonValue::Number(s)) => if s@.len() > 0 && s@[0] == '-' {
            match digits_u64(s@.drop_first()) {
                Some(n) => if n <= 0x8000_0000_0000_0000 { Some((-(n as int)) as i64) } else { None },
                None => None,
            }
        } else {
            match digits_u64(s@) {
                Some(n) => if n <= i64::MAX { Some(n as i64) } else { None },
                None => None,
            }
        },
        _ => None,
    }
}

/// `Value::as_i64` on the JSON value `v`, when there is one.
pub fn as_i64(v: Option<&JsonValue>) -> (r: Option<i64>)
    ensures
        r == number_i64(match v { Some(x) => Some(*x), None => None }),
{
    let text = match v {
        Some(JsonValue::Number(s)) => s,
        _ => {
            return None;
        },
    };
    let cs = chars_of(text.as_str());
    if cs.len() > 0 && cs[0] == '-' {
        assert(cs@.skip(1) =~= cs@.drop_first());
        match parse_digits(&cs, 1) {
            Some(n) => if n <= 0x8000_0000_0000_0000 {
                if n == 0x8000_0000_0000_0000 { Some(i64::MIN) } else { Some(-(n as i64)) }
            } else {
                None
            },
            None => None,
        }
    } else {
        assert(cs@.skip(0) =~= cs@);
        match parse_digits(&cs, 0) {
            Some(n) => if n <= 0x7fff_ffff_ffff_ffff { Some(n as i64) } else { None },
            None => None,
        }
    }
}

/// The JSON value under `key` of `v`, when `v` is an object that has it.
pub open spec fn member(v: Option<JsonValue>, key: Seq<char>) -> Option<JsonValue> {
    match v {
        Some(x) => get_spec(x, key),
        None => None,
    }
}

/// `v[key]` on an optional value, as `serde_json` indexes: nothing when
/// `v` is nothing, not an object, or has no such key.
pub fn member_of<'a>(v: Option<&'a JsonValue>, key: &str) -> (r: Option<&'a JsonValue>)
    ensures
        match r { Some(x) => Some(*x), None => None::<JsonValue> } == member(
            match v { Some(x) => Some(*x), None => None },
            key@,
        ),
{
    match v {
        Some(x) => x.get(key),
        None => None,
    }
}

/// The class a failure's `type` names: quota and billing failures are
/// fatal, overload and rate limits transient; other names say nothing.
pub open spec fn body_kind_spec(value: Seq<char>) -> Option<LlmErrorKind> {
    if value == "billing_error"@ || value == "insufficient_quota"@ || value == "quota_exceeded"@
        || value == "exceeded_current_quota_error"@ || value == "payment_required"@ {
        Some(LlmErrorKind::Fatal)
    } else if value == "overloaded_error"@ || value == "rate_limit_exceeded"@ || value == "rate_limit_reached_error"@
        || value == "engine_overloaded_error"@ {
        Some(LlmErrorKind::Transient { retry_after: None })
    } else {
        None
    }
}

/// The class of a failure named by its `type`.
pub fn classify_body_type(value: &str) -> (r: Option<LlmErrorKind>)
    ensures
        r == body_kind_spec(value@),
{
    let cs = chars_of(value);
    if eq_str(&cs, "billing_error") || eq_str(&cs, "insufficient_quota") || eq_str(&cs, "quota_exceeded")
        || eq_str(&cs, "exceeded_current_quota_error") || eq_str(&cs, "payment_required") {
        Some(LlmErrorKind::Fatal)
    } else if eq_str(&cs, "overloaded_error") || eq_str(&cs, "rate_limit_exceeded") || eq_str(
        &cs,
        "rate_limit_reached_error",
    ) || eq_str(&cs, "engine_overloaded_error") {
        Some(LlmErrorKind::Transient { retry_after: None })
    } else {
        None
    }
}

/// Whether an HTTP status is worth retrying: a server error, a timeout,
/// a conflict, too many requests, or an overload.
pub open spec fn transient_status(status: u16) -> bool {
    (500 <= status <= 599) || status == 408 || status == 409 || status == 429 || status == 529
}

/// The class of a failure: what its body's `type` says when it says
/// something, else transient for a retryable status or when there is no
/// status at all, and fatal otherwise.
pub open spec fn classify_spec(status: Option<u16>, body_kind: Option<LlmErrorKind>) -> LlmErrorKind {
    match body_kind {
        Some(kind) => kind,
        None => match status {
            None => LlmErrorKind::Transient { retry_after: None },
            Some(s) => if transient_status(s) {
                LlmErrorKind::Transient { retry_after: None }
            } else {
                LlmErrorKind::Fatal
            },
        },
    }
}

/// Which failures are retried when the body names no kind: exactly the
/// server errors (5xx), request timeouts (408), conflicts (409), rate
/// limits (429), overloads (529) and failures with no status, never with a
/// wait asked for; every other status stops the agent. A kind the body
/// names always wins.
pub proof fn lemma_status_classes(s: u16, status: Option<u16>, kind: LlmErrorKind)
    ensures
        classify_spec(Some(s), None) is Transient <==> (500 <= s && s <= 599) || s == 408 || s == 409 || s == 429 || s == 529,
        classify_spec(Some(s), None) is Transient ==> classify_spec(Some(s), None) == (LlmErrorKind::Transient { retry_after: None }),
        !(classify_spec(Some(s), None) is Transient) ==> classify_spec(Some(s), None) == LlmErrorKind::Fatal,
        classify_spec(Some(429), None) == (LlmErrorKind::Transient { retry_after: None }),
        classify_spec(None, None) == (LlmErrorKind::Transient { retry_after: None }),
        classify_spec(status, Some(kind)) == kind,
{
}

/// The class of a failure (see `classify_spec`).
pub fn classify_status(status: Option<u16>, body_kind: Option<LlmErrorKind>) -> (r: LlmErrorKind)
    ensures
        r == classify_spec(status, body_kind),
{
    match body_kind {
        Some(kind) => kind,
        None => {
            let transient = match status {
                Some(s) => (500 <= s && s <= 599) || s == 408 || s == 409 || s == 429 || s == 529,
                None => true,
            };
            if transient {
                LlmErrorKind::Transient { retry_after: None }
            } else {
                LlmErrorKind::Fatal
            }
        },
    }
}

/// The wait a `retry-after` header asks for, in seconds: a whole number of
/// at most five minutes; a longer or unreadable one is ignored.
pub open spec fn retry_after_spec(header: Option<Seq<char>>) -> Option<u64> {
    match header {
        None => None,
        Some(h) => match parse_u64_spec(h) {
            Some(n) => if n <= 300 { Some(n) } else { None },
            None => None,
        },
    }
}

/// The wait a `retry-after` header asks for (see `retry_after_spec`).
pub fn retry_after(header: Option<&str>) -> (r: Option<u64>)
    ensures
        r == retry_after_spec(match header { Some(h) => Some(h@), None => None }),
{
    match header {
        None => None,
        Some(h) => match parse_u64(h) {
            Some(n) => if n <= 300 { Some(n) } else { None },
            None => None,
        },
    }
}

/// A transient class with the wait the `retry-after` header asks for; a
/// fatal class as it is.
pub fn with_retry_after(kind: LlmErrorKind, header: Option<&str>) -> (r: LlmErrorKind)
    ensures
        r == match kind {
            LlmErrorKind::Transient { .. } => LlmErrorKind::Transient {
                retry_after: retry_after_spec(match header { Some(h) => Some(h@), None => None }),
            },
            LlmErrorKind::Fatal => LlmErrorKind::Fatal,
        },
{
    match kind {
        LlmErrorKind::Transient { .. } => LlmErrorKind::Transient { retry_after: retry_after(header) },
        LlmErrorKind::Fatal => LlmErrorKind::Fatal,
    }
}

/// The `type` a failure's JSON body gives: that of its `error` member, or
/// its own.
pub open spec fn body_type_spec(body: Seq<char>) -> Option<Seq<char>> {
    match json_parse(body) {
        None => None,
        Some(v) => match str_of(member(get_spec(v, "error"@), "type"@)) {
            Some(t) => Some(t),
            None => str_of(get_spec(v, "type"@)),
        },
    }
}

/// The `type` a failure's JSON body gives (see `body_type_spec`).
pub fn body_type(body: &str) -> (r: Option<String>)
    ensures
        opt_view(r) == body_type_spec(body@),
{
    let v = match parse_json(body) {
        Some(v) => v,
        None => {
            return None;
        },
    };
    match member_of(v.get("error"), "type") {
        Some(JsonValue::Str(t)) => {
            return Some(t.clone());
        },
        _ => {},
    }
    match v.get("type") {
        Some(JsonValue::Str(t)) => Some(t.clone()),
        _ => None,
    }
}

/// A failure to reach the API: classed by its status alone.
pub fn from_transport(status: Option<u16>, message: String) -> (r: LlmError)
    ensures
        r.kind == classify_spec(status, None),
        r.message == message,
        r.status == status,
        r.request_id is None,
{
    LlmError { kind: classify_status(status, None), message, status, request_id: None }
}

/// A failure the API answered with: classed by the body's `type`, then by
/// the status, with the wait of a `retry-after` header when transient; the
/// message shows the status (`status_text`, code and reason) and the body.
pub fn from_response(
    status: u16,
    status_text: &str,
    request_id: Option<String>,
    retry_after_header: Option<&str>,
    body: String,
) -> (r: LlmError)
    ensures
        r.kind == match classify_spec(
            Some(status),
            match body_type_spec(body@) { Some(t) => body_kind_spec(t), None => None },
        ) {
            LlmErrorKind::Transient { .. } => LlmErrorKind::Transient {
                retry_after: retry_after_spec(match retry_after_header { Some(h) => Some(h@), None => None }),
            },
            LlmErrorKind::Fatal => LlmErrorKind::Fatal,
        },
        r.message@ == "HTTP "@ + status_text@ + ": "@ + body@,
        r.status == Some(status),
        r.request_id == request_id,
{
    let body_kind = match body_type(body.as_str()) {
        Some(t) => classify_body_type(t.as_str()),
        None => None,
    };
    let kind = with_retry_after(classify_status(Some(status), body_kind), retry_after_header);
    let mut message = String::new();
    append_str(&mut message, "HTTP ");
    append_str(&mut message, status_text);
    append_str(&mut message, ": ");
    append_str(&mut message, body.as_str());
    LlmError { kind, message, status: Some(status), request_id }
}

/// A response that could not be read: fatal.
pub fn parse_error(message: String) -> (r: LlmError)
    ensures
        r.kind == LlmErrorKind::Fatal,
        r.message == message,
        r.status is None,
        r.request_id is None,
{
    LlmError { kind: LlmErrorKind::Fatal, message, status: None, request_id: None }
}

/// A failure reported inside a stream: classed by its `type`, else
/// transient.
pub fn stream_error(message: String, request_id: Option<String>, body_type: Option<&str>) -> (r: LlmError)
    ensures
        r.kind == classify_spec(None, match body_type { Some(t) => body_kind_spec(t@), None => None }),
        r.message == message,
        r.status is None,
        r.request_id == request_id,
{
    let body_kind = match body_type {
        Some(t) => classify_body_type(t),
        None => None,
    };
    LlmError { kind: classify_status(None, body_kind), message, status: None, request_id }
}


/// Whether `v` is the JSON string `s`.
pub open spec fn str_json(v: JsonValue, s: Seq<char>) -> bool {
    match v {
        JsonValue::Str(x) => x@ == s,
        _ => false,
    }
}

/// Whether `v` is a JSON object whose keys are `keys`, in order.
pub open spec fn keys_are(v: JsonValue, keys: Seq<Seq<char>>) -> bool {
    match v {
        JsonValue::Object(ms) => ms@.len() == keys.len() && forall|i: int| 0 <= i < keys.len() ==> (#[trigger] ms@[i]).0@ == keys[i],
        _ => false,
    }
}

/// The value of the `i`-th member of the object `v`.
pub open spec fn at(v: JsonValue, i: int) -> JsonValue {
    match v {
        JsonValue::Object(ms) => ms@[i].1,
        _ => JsonValue::Null,
    }
}

/// Whether `v` is the empty JSON object.
pub open spec fn empty_object(v: JsonValue) -> bool {
    match v {
        JsonValue::Object(ms) => ms@.len() == 0,
        _ => false,
    }
}

/// A content block of a request, as values.
pub enum ReqBlock {
    Text(Seq<char>),
    Thinking(Seq<char>),
    ToolUse { id: Seq<char>, name: Seq<char>, arguments: Seq<char> },
    ToolResult { id: Seq<char>, content: Seq<char> },
}

/// Whether `v` is the JSON of the block `b`. A tool call's input is its
/// arguments read as JSON, or the empty object when they are not JSON.
pub open spec fn block_json(v: JsonValue, b: ReqBlock) -> bool {
    match b {
        ReqBlock::Text(t) => keys_are(v, seq!["text"@, "type"@]) && str_json(at(v, 0), t) && str_json(at(v, 1), "text"@),
        ReqBlock::Thinking(t) => keys_are(v, seq!["thinking"@, "type"@]) && str_json(at(v, 0), t) && str_json(
            at(v, 1),
            "thinking"@,
        ),
        ReqBlock::ToolUse { id, name, arguments } => {
            &&& keys_are(v, seq!["id"@, "input"@, "name"@, "type"@])
            &&& str_json(at(v, 0), id)
            &&& match json_parse(arguments) {
                Some(input) => at(v, 1) == input,
                None => empty_object(at(v, 1)),
            }
            &&& str_json(at(v, 2), name)
            &&& str_json(at(v, 3), "tool_use"@)
        },
        ReqBlock::ToolResult { id, content } => keys_are(v, seq!["content"@, "tool_use_id"@, "type"@]) && str_json(
            at(v, 0),
            content,
        ) && str_json(at(v, 1), id) && str_json(at(v, 2), "tool_result"@),
    }
}

/// Whether `v` is a JSON array of the blocks `blocks`.
pub open spec fn blocks_json(v: JsonValue, blocks: Seq<ReqBlock>) -> bool {
    match v {
        JsonValue::Array(arr) => arr@.len() == blocks.len() && forall|i: int| 0 <= i < blocks.len() ==> block_json(
            #[trigger] arr@[i],
            blocks[i],
        ),
        _ => false,
    }
}

/// A message of a request, as values.
pub struct ReqMessage {
    pub role: Seq<char>,
    pub blocks: Seq<ReqBlock>,
}

/// Whether `v` is the JSON of the message `m`.
pub open spec fn message_json(v: JsonValue, m: ReqMessage) -> bool {
    keys_are(v, seq!["content"@, "role"@]) && blocks_json(at(v, 0), m.blocks) && str_json(at(v, 1), m.role)
}

/// A lone empty text block stands in for a message with no content.
pub open spec fn or_empty_text(blocks: Seq<ReqBlock>) -> Seq<ReqBlock> {
    if blocks.len() == 0 { seq![ReqBlock::Text(seq![])] } else { blocks }
}

/// The blocks of a user message: its text when there is some, then its
/// tool results.
pub open spec fn user_blocks(message: Seq<char>, results: Seq<ToolResult>) -> Seq<ReqBlock> {
    or_empty_text(
        (if message.len() > 0 { seq![ReqBlock::Text(message)] } else { seq![] }) + results.map_values(
            |tr: ToolResult| ReqBlock::ToolResult { id: tr.tool_call_id@, content: tr.content@ },
        ),
    )
}

/// The blocks of a response: its non-empty texts and reasonings and its
/// tool calls, in order.
pub open spec fn response_blocks(blocks: Seq<Block>) -> Seq<ReqBlock>
    decreases blocks.len(),
{
    if blocks.len() == 0 {
        seq![]
    } else {
        let rest = response_blocks(blocks.drop_last());
        match blocks.last() {
            Block::Text(t) => if t@.len() > 0 { rest.push(ReqBlock::Text(t@)) } else { rest },
            Block::Reasoning { text } => if text@.len() > 0 { rest.push(ReqBlock::Thinking(text@)) } else { rest },
            Block::ToolCall(call) => rest.push(
                ReqBlock::ToolUse { id: call.id@, name: call.name@, arguments: call.arguments@ },
            ),
        }
    }
}

/// The system prompt (the last one given) and the messages of a request
/// for the conversation `ms`.
pub open spec fn converted(ms: Seq<Message>) -> (Option<Seq<char>>, Seq<ReqMessage>)
    decreases ms.len(),
{
    if ms.len() == 0 {
        (None, seq![])
    } else {
        let (system, out) = converted(ms.drop_last());
        match ms.last() {
            Message::System(content) => (Some(content@), out),
            Message::User { message, tool_call_results } => (
                system,
                out.push(ReqMessage { role: "user"@, blocks: user_blocks(message.message@, tool_call_results@) }),
            ),
            Message::Assistant { response } => (
                system,
                out.push(ReqMessage { role: "assistant"@, blocks: or_empty_text(response_blocks(response.blocks@)) }),
            ),
        }
    }
}

fn str_value(s: &str) -> (r: JsonValue)
    ensures
        str_json(r, s@),
{
    JsonValue::Str(s.to_owned())
}

fn text_block(t: String) -> (r: JsonValue)
    ensures
        block_json(r, ReqBlock::Text(t@)),
{
    let mut ms: Vec<(String, JsonValue)> = Vec::new();
    ms.push(("text".to_owned(), JsonValue::Str(t)));
    ms.push(("type".to_owned(), str_value("text")));
    JsonValue::Object(ms)
}

fn thinking_block(t: String) -> (r: JsonValue)
    ensures
        block_json(r, ReqBlock::Thinking(t@)),
{
    let mut ms: Vec<(String, JsonValue)> = Vec::new();
    ms.push(("thinking".to_owned(), JsonValue::Str(t)));
    ms.push(("type".to_owned(), str_value("thinking")));
    JsonValue::Object(ms)
}

fn tool_use_block(call: &ToolCallRequest) -> (r: JsonValue)
    ensures
        block_json(r, ReqBlock::ToolUse { id: call.id@, name: call.name@, arguments: call.arguments@ }),
{
    let input = match parse_json(call.arguments.as_str()) {
        Some(v) => v,
        None => JsonValue::Object(Vec::new()),
    };
    let mut ms: Vec<(String, JsonValue)> = Vec::new();
    ms.push(("id".to_owned(), JsonValue::Str(call.id.clone())));
    ms.push(("input".to_owned(), input));
    ms.push(("name".to_owned(), JsonValue::Str(call.name.clone())));
    ms.push(("type".to_owned(), str_value("tool_use")));
    JsonValue::Object(ms)
}

fn tool_result_block(tr: &ToolResult) -> (r: JsonValue)
    ensures
        block_json(r, ReqBlock::ToolResult { id: tr.tool_call_id@, content: tr.content@ }),
{
    let mut ms: Vec<(String, JsonValue)> = Vec::new();
    ms.push(("content".to_owned(), JsonValue::Str(tr.content.clone())));
    ms.push(("tool_use_id".to_owned(), JsonValue::Str(tr.tool_call_id.clone())));
    ms.push(("type".to_owned(), str_value("tool_result")));
    JsonValue::Object(ms)
}

fn message_value(role: &str, blocks: Vec<JsonValue>, Ghost(expected): Ghost<Seq<ReqBlock>>) -> (r: JsonValue)
    requires
        blocks@.len() == expected.len(),
        forall|i: int| 0 <= i < expected.len() ==> block_json(#[trigger] blocks@[i], expected[i]),
    ensures
        message_json(r, ReqMessage { role: role@, blocks: expected }),
{
    let mut ms: Vec<(String, JsonValue)> = Vec::new();
    ms.push(("content".to_owned(), JsonValue::Array(blocks)));
    ms.push(("role".to_owned(), str_value(role)));
    JsonValue::Object(ms)
}

fn user_message(message: &String, results: &Vec<ToolResult>) -> (r: JsonValue)
    ensures
        message_json(r, ReqMessage { role: "user"@, blocks: user_blocks(message@, results@) }),
{
    let ghost head: Seq<ReqBlock> = if message@.len() > 0 { seq![ReqBlock::Text(message@)] } else { seq![] };
    let ghost tail = results@.map_values(
        |tr: ToolResult| ReqBlock::ToolResult { id: tr.tool_call_id@, content: tr.content@ },
    );
    let mut blocks: Vec<JsonValue> = Vec::new();
    if chars_of(message.as_str()).len() > 0 {
        blocks.push(text_block(message.clone()));
    }
    let mut i: usize = 0;
    while i < results.len()
        invariant
            i <= results.len(),
            tail == results@.map_values(
                |tr: ToolResult| ReqBlock::ToolResult { id: tr.tool_call_id@, content: tr.content@ },
            ),
            blocks@.len() == head.len() + i,
            forall|k: int| 0 <= k < blocks@.len() ==> block_json(#[trigger] blocks@[k], (head + tail)[k]),
        decreases results.len() - i,
    {
        blocks.push(tool_result_block(&results[i]));
        assert((head + tail)[head.len() + i] == tail[i as int]);
        i = i + 1;
    }
    let ghost all = head + tail;
    if blocks.len() == 0 {
        blocks.push(text_block(String::new()));
        return message_value("user", blocks, Ghost(or_empty_text(all)));
    }
    message_value("user", blocks, Ghost(or_empty_text(all)))
}

fn assistant_message(response: &AssistantResponse) -> (r: JsonValue)
    ensures
        message_json(r, ReqMessage { role: "assistant"@, blocks: or_empty_text(response_blocks(response.blocks@)) }),
{
    let mut blocks: Vec<JsonValue> = Vec::new();
    let mut i: usize = 0;
    while i < response.blocks.len()
        invariant
            i <= response.blocks.len(),
            blocks@.len() == response_blocks(response.blocks@.take(i as int)).len(),
            forall|k: int| 0 <= k < blocks@.len() ==> block_json(
                #[trigger] blocks@[k],
                response_blocks(response.blocks@.take(i as int))[k],
            ),
        decreases response.blocks.len() - i,
    {
        assert(response.blocks@.take(i + 1).drop_last() =~= response.blocks@.take(i as int));
        match &response.blocks[i] {
            Block::Text(t) => {
                if chars_of(t.as_str()).len() > 0 {
                    blocks.push(text_block(t.clone()));
                }
            },
            Block::Reasoning { text } => {
                if chars_of(text.as_str()).len() > 0 {
                    blocks.push(thinking_block(text.clone()));
                }
            },
            Block::ToolCall(call) => {
                blocks.push(tool_use_block(call));
            },
        }
        i = i + 1;
    }
    assert(response.blocks@.take(response.blocks.len() as int) =~= response.blocks@);
    if blocks.len() == 0 {
        blocks.push(text_block(String::new()));
    }
    message_value("assistant", blocks, Ghost(or_empty_text(response_blocks(response.blocks@))))
}

/// The system prompt and the messages of a request for the conversation
/// `messages` (see `converted`): system messages give the prompt, the last
/// one winning; user and assistant messages become JSON messages.
pub fn convert_messages(messages: &Vec<Message>) -> (r: (Option<String>, Vec<JsonValue>))
    ensures
        opt_view(r.0) == converted(messages@).0,
        r.1@.len() == converted(messages@).1.len(),
        forall|i: int| 0 <= i < r.1@.len() ==> message_json(#[trigger] r.1@[i], converted(messages@).1[i]),
{
    let mut system: Option<String> = None;
    let mut out: Vec<JsonValue> = Vec::new();
    let mut i: usize = 0;
    while i < messages.len()
        invariant
            i <= messages.len(),
            opt_view(system) == converted(messages@.take(i as int)).0,
            out@.len() == converted(messages@.take(i as int)).1.len(),
            forall|k: int| 0 <= k < out@.len() ==> message_json(#[trigger] out@[k], converted(messages@.take(i as int)).1[k]),
        decreases messages.len() - i,
    {
        assert(messages@.take(i + 1).drop_last() =~= messages@.take(i as int));
        match &messages[i] {
            Message::System(content) => {
                system = Some(content.clone());
            },
            Message::User { message, tool_call_results } => {
                out.push(user_message(&message.message, tool_call_results));
            },
            Message::Assistant { response } => {
                out.push(assistant_message(response));
            },
        }
        i = i + 1;
    }
    assert(messages@.take(messages.len() as int) =~= messages@);
    (system, out)
}

/// Whether `v` is the JSON of the tool `t`: its description when it has
/// one, its parameters' schema and its name.
pub open spec fn tool_json(v: JsonValue, t: ToolDefinition) -> bool {
    match t.description {
        Some(d) => keys_are(v, seq!["description"@, "input_schema"@, "name"@]) && str_json(at(v, 0), d@) && at(v, 1)
            == t.parameters && str_json(at(v, 2), t.name@),
        None => keys_are(v, seq!["input_schema"@, "name"@]) && at(v, 0) == t.parameters && str_json(at(v, 1), t.name@),
    }
}

/// The JSON of the tools `tools`, in order.
pub fn convert_tools(tools: Vec<ToolDefinition>) -> (r: Vec<JsonValue>)
    ensures
        r@.len() == tools@.len(),
        forall|i: int| 0 <= i < tools@.len() ==> tool_json(#[trigger] r@[i], tools@[i]),
{
    let ghost all = tools@;
    let mut rest = tools;
    let mut out: Vec<JsonValue> = Vec::new();
    while rest.len() > 0
        invariant
            out@.len() + rest@.len() == all.len(),
            rest@ == all.subrange(out@.len() as int, all.len() as int),
            forall|k: int| 0 <= k < out@.len() ==> tool_json(#[trigger] out@[k], all[k]),
        decreases rest.len(),
    {
        let ghost k = out@.len();
        let t = rest.remove(0);
        assert(t == all[k as int]);
        let ToolDefinition { name, description, parameters } = t;
        let mut ms: Vec<(String, JsonValue)> = Vec::new();
        match description {
            Some(d) => {
                ms.push(("description".to_owned(), JsonValue::Str(d)));
            },
            None => {},
        }
        ms.push(("input_schema".to_owned(), parameters));
        ms.push(("name".to_owned(), JsonValue::Str(name)));
        out.push(JsonValue::Object(ms));
        assert(rest@ =~= all.subrange(out@.len() as int, all.len() as int));
    }
    out
}

/// Whether `v` is the JSON body of a request to `model` for the
/// conversation `messages` with the tools `tools`: the token budget, the
/// messages, the model, then, when they apply, the stream flag, the system
/// prompt and the tools.
pub open spec fn body_json(v: JsonValue, model: Seq<char>, messages: Seq<Message>, tools: Seq<ToolDefinition>, stream: bool) -> bool {
    let (system, msgs) = converted(messages);
    let si: int = if stream { 4 } else { 3 };
    let ti: int = if system is Some { si + 1 } else { si };
    &&& keys_are(
        v,
        seq!["max_tokens"@, "messages"@, "model"@] + (if stream { seq!["stream"@] } else { seq![] }) + (if system is Some {
            seq!["system"@]
        } else {
            seq![]
        }) + (if tools.len() > 0 { seq!["tools"@] } else { seq![] }),
    )
    &&& at(v, 0) == JsonValue::Number(at(v, 0)->Number_0) && at(v, 0)->Number_0@ == decimal_spec(DEFAULT_MAX_TOKENS as nat)
    &&& match at(v, 1) {
        JsonValue::Array(arr) => arr@.len() == msgs.len() && forall|i: int| 0 <= i < msgs.len() ==> message_json(#[trigger] arr@[i], msgs[i]),
        _ => false,
    }
    &&& str_json(at(v, 2), model)
    &&& stream ==> at(v, 3) == JsonValue::Bool(true)
    &&& system is Some ==> str_json(at(v, si), system->0)
    &&& tools.len() > 0 ==> match at(v, ti) {
        JsonValue::Array(arr) => arr@.len() == tools.len() && forall|i: int| 0 <= i < tools.len() ==> tool_json(#[trigger] arr@[i], tools[i]),
        _ => false,
    }
}

/// The JSON body of a request (see `body_json`).
pub fn build_body(model: &str, messages: &Vec<Message>, tools: Vec<ToolDefinition>, stream: bool) -> (r: JsonValue)
    ensures
        body_json(r, model@, messages@, tools@, stream),
{
    let ghost tv = tools@;
    let (system, msgs) = convert_messages(messages);
    let has_tools = tools.len() > 0;
    let tool_values = convert_tools(tools);
    let mut ms: Vec<(String, JsonValue)> = Vec::new();
    ms.push(("max_tokens".to_owned(), JsonValue::Number(crate::tool_view::decimal(DEFAULT_MAX_TOKENS as usize))));
    ms.push(("messages".to_owned(), JsonValue::Array(msgs)));
    ms.push(("model".to_owned(), str_value(model)));
    if stream {
        ms.push(("stream".to_owned(), JsonValue::Bool(true)));
    }
    let ghost sv = opt_view(system);
    match system {
        Some(s) => {
            ms.push(("system".to_owned(), JsonValue::Str(s)));
        },
        None => {},
    }
    if has_tools {
        ms.push(("tools".to_owned(), JsonValue::Array(tool_values)));
    }
    let r = JsonValue::Object(ms);
    proof {
        let (system_spec, _) = converted(messages@);
        assert(system_spec == sv);
        let keys = seq!["max_tokens"@, "messages"@, "model"@] + (if stream { seq!["stream"@] } else { seq![] }) + (
        if system_spec is Some {
            seq!["system"@]
        } else {
            seq![]
        }) + (if tv.len() > 0 { seq!["tools"@] } else { seq![] });
        assert(keys_are(r, keys));
    }
    r
}

/// The count under `key` of `u` as a 32-bit number: `as_i64`, cut to 32
/// bits as `as i32` does.
pub open spec fn count_of(u: JsonValue, key: Seq<char>) -> Option<i32> {
    match number_i64(get_spec(u, key)) {
        Some(n) => Some(n as i32),
        None => None,
    }
}

/// The token counts of a `usage` object; `None` when `u` is not an object.
/// The total is the sum of the input and output counts, in 64 bits
/// wrapping around, cut to 32 bits.
pub open spec fn usage_spec(u: Option<JsonValue>) -> Option<TokenUsage> {
    match u {
        Some(JsonValue::Object(ms)) => {
            let v = JsonValue::Object(ms);
            Some(TokenUsage {
                prompt_tokens: count_of(v, "input_tokens"@),
                completion_tokens: count_of(v, "output_tokens"@),
                total_tokens: match (number_i64(get_spec(v, "input_tokens"@)), number_i64(get_spec(v, "output_tokens"@))) {
                    (Some(i), Some(o)) => Some(i.wrapping_add(o) as i32),
                    _ => None,
                },
                cached_tokens: count_of(v, "cache_read_input_tokens"@),
                cache_creation_tokens: count_of(v, "cache_creation_input_tokens"@),
            })
        },
        _ => None,
    }
}

fn count(u: &JsonValue, key: &str) -> (r: Option<i32>)
    ensures
        r == count_of(*u, key@),
{
    match as_i64(u.get(key)) {
        Some(n) => Some(#[verifier::truncate] (n as i32)),
        None => None,
    }
}

/// The token counts of a `usage` object (see `usage_spec`).
pub fn parse_usage(u: Option<&JsonValue>) -> (r: Option<TokenUsage>)
    ensures
        r == usage_spec(match u { Some(x) => Some(*x), None => None }),
{
    let v = match u {
        Some(v) => v,
        None => {
            return None;
        },
    };
    if !v.is_object() {
        return None;
    }
    let input = as_i64(v.get("input_tokens"));
    let output = as_i64(v.get("output_tokens"));
    let total = match (input, output) {
        (Some(i), Some(o)) => Some(#[verifier::truncate] (i.wrapping_add(o) as i32)),
        _ => None,
    };
    Some(TokenUsage {
        prompt_tokens: count(v, "input_tokens"),
        completion_tokens: count(v, "output_tokens"),
        total_tokens: total,
        cached_tokens: count(v, "cache_read_input_tokens"),
        cache_creation_tokens: count(v, "cache_creation_input_tokens"),
    })
}


/// A block of a response, as values.
pub open spec fn block_view(b: Block) -> ReqBlock {
    match b {
        Block::Text(t) => ReqBlock::Text(t@),
        Block::Reasoning { text } => ReqBlock::Thinking(text@),
        Block::ToolCall(call) => ReqBlock::ToolUse { id: call.id@, name: call.name@, arguments: call.arguments@ },
    }
}

/// What the content blocks `blocks` of a response hold: the text of its
/// text blocks, the text of its thinking blocks, and its tool calls (id,
/// name and input printed as JSON) that have an id and a name.
pub open spec fn content_parts(blocks: Seq<JsonValue>) -> (Seq<char>, Seq<char>, Seq<ReqBlock>)
    decreases blocks.len(),
{
    if blocks.len() == 0 {
        (seq![], seq![], seq![])
    } else {
        let (text, reasoning, calls) = content_parts(blocks.drop_last());
        let b = blocks.last();
        let kind = str_of(get_spec(b, "type"@));
        if kind == Some("text"@) {
            match str_of(get_spec(b, "text"@)) {
                Some(t) => (text + t, reasoning, calls),
                None => (text, reasoning, calls),
            }
        } else if kind == Some("thinking"@) {
            match str_of(get_spec(b, "thinking"@)) {
                Some(t) => (text, reasoning + t, calls),
                None => (text, reasoning, calls),
            }
        } else if kind == Some("tool_use"@) {
            match (str_of(get_spec(b, "id"@)), str_of(get_spec(b, "name"@))) {
                (Some(id), Some(name)) => (
                    text,
                    reasoning,
                    calls.push(
                        ReqBlock::ToolUse {
                            id,
                            name,
                            arguments: json_compact(
                                match get_spec(b, "input"@) {
                                    Some(x) => x,
                                    None => JsonValue::Null,
                                },
                            ),
                        },
                    ),
                ),
                _ => (text, reasoning, calls),
            }
        } else {
            (text, reasoning, calls)
        }
    }
}

/// The blocks of a whole response `data`: its text, then its reasoning,
/// each when not empty, then its tool calls.
pub open spec fn response_spec(data: JsonValue) -> Seq<ReqBlock> {
    let blocks = match get_spec(data, "content"@) {
        Some(JsonValue::Array(arr)) => arr@,
        _ => seq![],
    };
    let (text, reasoning, calls) = content_parts(blocks);
    (if text.len() > 0 { seq![ReqBlock::Text(text)] } else { seq![] }) + (if reasoning.len() > 0 {
        seq![ReqBlock::Thinking(reasoning)]
    } else {
        seq![]
    }) + calls
}

/// Reads a whole (not streamed) response (see `response_spec`), with its
/// token counts and the reason the model stopped.
pub fn parse_response(data: &JsonValue) -> (r: crate::provider::CompletedLlmResponse)
    ensures
        r.response.blocks@.map_values(|b: Block| block_view(b)) == response_spec(*data),
        r.usage == usage_spec(get_spec(*data, "usage"@)),
        opt_view(r.stop_reason) == str_of(get_spec(*data, "stop_reason"@)),
{
    let mut text = String::new();
    let mut reasoning = String::new();
    let mut calls: Vec<ToolCallRequest> = Vec::new();
    let empty: Vec<JsonValue> = Vec::new();
    let blocks: &Vec<JsonValue> = match data.get("content") {
        Some(JsonValue::Array(arr)) => arr,
        _ => &empty,
    };
    let ghost bv = blocks@;
    assert(bv == match get_spec(*data, "content"@) {
        Some(JsonValue::Array(arr)) => arr@,
        _ => seq![],
    });
    let mut i: usize = 0;
    while i < blocks.len()
        invariant
            i <= blocks.len(),
            bv == blocks@,
            text@ == content_parts(bv.take(i as int)).0,
            reasoning@ == content_parts(bv.take(i as int)).1,
            calls@.map_values(|c: ToolCallRequest| ReqBlock::ToolUse { id: c.id@, name: c.name@, arguments: c.arguments@ })
                == content_parts(bv.take(i as int)).2,
        decreases blocks.len() - i,
    {
        assert(bv.take(i + 1).drop_last() =~= bv.take(i as int));
        let b = &blocks[i];
        let ghost before = calls@;
        let kind = match b.get("type") {
            Some(JsonValue::Str(k)) => Some(chars_of(k.as_str())),
            _ => None,
        };
        let is_kind = |k: &Option<Vec<char>>, name: &str| -> (r: bool)
            ensures
                r == (match k { Some(v) => v@ == name@, None => false }),
        {
            match k {
                Some(v) => eq_str(v, name),
                None => false,
            }
        };
        if is_kind(&kind, "text") {
            match b.get("text") {
                Some(JsonValue::Str(t)) => append_str(&mut text, t.as_str()),
                _ => {},
            }
        } else if is_kind(&kind, "thinking") {
            match b.get("thinking") {
                Some(JsonValue::Str(t)) => append_str(&mut reasoning, t.as_str()),
                _ => {},
            }
        } else if is_kind(&kind, "tool_use") {
            match (b.get("id"), b.get("name")) {
                (Some(JsonValue::Str(id)), Some(JsonValue::Str(name))) => {
                    let arguments = match b.get("input") {
                        Some(input) => compact_text(input),
                        None => compact_text(&JsonValue::Null),
                    };
                    calls.push(ToolCallRequest { id: id.clone(), name: name.clone(), arguments });
                    assert(calls@ =~= before.push(calls@.last()));
                },
                _ => {},
            }
        }
        i = i + 1;
    }
    assert(bv.take(blocks.len() as int) =~= bv);
    let ghost (tv, rv, cv) = (text@, reasoning@, calls@);
    let mut out: Vec<Block> = Vec::new();
    if chars_of(text.as_str()).len() > 0 {
        out.push(Block::Text(text));
    }
    if chars_of(reasoning.as_str()).len() > 0 {
        out.push(Block::Reasoning { text: reasoning });
    }
    let ghost head = out@;
    let mut rest = calls;
    let mut rev: Vec<ToolCallRequest> = Vec::new();
    while rest.len() > 0
        invariant
            rev@.len() + rest@.len() == cv.len(),
            rest@ == cv.take(rest@.len() as int),
            forall|k: int| 0 <= k < rev@.len() ==> #[trigger] rev@[k] == cv[cv.len() - 1 - k],
        decreases rest.len(),
    {
        let c = rest.pop().unwrap();
        rev.push(c);
        assert(rest@ =~= cv.take(rest@.len() as int));
    }
    while rev.len() > 0
        invariant
            rev@.len() + (out@.len() - head.len()) == cv.len(),
            out@.len() >= head.len(),
            out@.take(head.len() as int) == head,
            forall|k: int| 0 <= k < rev@.len() ==> #[trigger] rev@[k] == cv[cv.len() - 1 - k],
            forall|k: int| head.len() <= k < out@.len() ==> #[trigger] out@[k] == Block::ToolCall(cv[k - head.len()]),
        decreases rev.len(),
    {
        let c = rev.pop().unwrap();
        out.push(Block::ToolCall(c));
        assert(out@.take(head.len() as int) =~= head);
    }
    let ghost views = out@.map_values(|b: Block| block_view(b));
    assert(views =~= response_spec(*data)) by {
        assert(out@.take(head.len() as int) == head);
        let calls_view = cv.map_values(|c: ToolCallRequest| ReqBlock::ToolUse { id: c.id@, name: c.name@, arguments: c.arguments@ });
        assert(calls_view == content_parts(bv).2);
        assert forall|k: int| 0 <= k < views.len() implies views[k] == response_spec(*data)[k] by {
            if k >= head.len() {
                assert(out@[k] == Block::ToolCall(cv[k - head.len()]));
            } else {
                assert(out@[k] == head[k]);
            }
        }
    }
    let response = AssistantResponse { blocks: out };
    crate::provider::CompletedLlmResponse {
        response,
        usage: parse_usage(data.get("usage")),
        stop_reason: match data.get("stop_reason") {
            Some(JsonValue::Str(s)) => Some(s.clone()),
            _ => None,
        },
    }
}


/// The text `String::from_utf8_lossy` makes of `bytes`.
pub uninterp spec fn utf8_lossy(bytes: Seq<u8>) -> Seq<char>;

/// Reads `bytes` as UTF-8 with `String::from_utf8_lossy`, which puts a
/// replacement character for each invalid sequence. The contract names the
/// result.
#[verifier::external_body]
fn lossy_text(bytes: &Vec<u8>) -> (r: String)
    ensures
        r@ == utf8_lossy(bytes@),
{
    String::from_utf8_lossy(bytes).into_owned()
}

/// The kind of the block being streamed.
#[derive(Debug, Clone, Copy, PartialEq, Eq, Structural)]
pub enum OpenKind {
    Text,
    Reasoning,
    ToolCall,
}

/// What a stream decoder knows, as values: the index of the next block,
/// the block open now, the token counts and the stop reason so far.
pub struct DecoderView {
    pub next_block: usize,
    pub current: Option<(OpenKind, usize)>,
    pub input_tokens: Option<i32>,
    pub output_tokens: Option<i32>,
    pub cached_tokens: Option<i32>,
    pub cache_creation_tokens: Option<i32>,
    pub stop_reason: Option<Seq<char>>,
}

/// How a stream ends, as values: finished with token counts and a stop
/// reason, or failed with a class and a message.
pub enum EndView {
    Finished(Option<TokenUsage>, Option<Seq<char>>),
    Failed(LlmErrorKind, Seq<char>),
}

/// What one line of a stream does.
pub enum LineOutcome {
    /// The stream goes on, in this state, after these events.
    Continue(DecoderView, Seq<EventView>),
    /// The stream ends so.
    Done(EndView),
}

/// The count under `key` of `u`, cut to 32 bits.
pub open spec fn count_in(u: Option<JsonValue>, key: Seq<char>) -> Option<i32> {
    match number_i64(member(u, key)) {
        Some(n) => Some(n as i32),
        None => None,
    }
}

/// The token counts at the end of a stream; the total, when both counts
/// are known, wraps around in 32 bits.
pub open spec fn stream_usage(st: DecoderView) -> TokenUsage {
    TokenUsage {
        prompt_tokens: st.input_tokens,
        completion_tokens: st.output_tokens,
        total_tokens: match (st.input_tokens, st.output_tokens) {
            (Some(i), Some(o)) => Some(i.wrapping_add(o)),
            _ => None,
        },
        cached_tokens: st.cached_tokens,
        cache_creation_tokens: st.cache_creation_tokens,
    }
}

/// What the JSON event `ev` does to the stream in state `st`.
pub open spec fn event_step(st: DecoderView, ev: JsonValue) -> LineOutcome {
    let kind = str_of(get_spec(ev, "type"@));
    if kind == Some("error"@) {
        let err = get_spec(ev, "error"@);
        LineOutcome::Done(
            EndView::Failed(
                classify_spec(
                    None,
                    match str_of(member(err, "type"@)) {
                        Some(t) => body_kind_spec(t),
                        None => None,
                    },
                ),
                match str_of(member(err, "message"@)) {
                    Some(m) => m,
                    None => "Anthropic stream error"@,
                },
            ),
        )
    } else if kind == Some("message_start"@) {
        let usage = member(get_spec(ev, "message"@), "usage"@);
        LineOutcome::Continue(
            DecoderView {
                input_tokens: count_in(usage, "input_tokens"@),
                cached_tokens: count_in(usage, "cache_read_input_tokens"@),
                cache_creation_tokens: count_in(usage, "cache_creation_input_tokens"@),
                ..st
            },
            seq![],
        )
    } else if kind == Some("content_block_start"@) {
        let block = get_spec(ev, "content_block"@);
        let block_type = str_of(member(block, "type"@));
        let opened: Option<(OpenKind, KindView)> = if block_type == Some("text"@) {
            Some((OpenKind::Text, KindView::Text))
        } else if block_type == Some("thinking"@) {
            Some((OpenKind::Reasoning, KindView::Reasoning))
        } else if block_type == Some("tool_use"@) {
            Some((
                OpenKind::ToolCall,
                KindView::ToolCall(
                    match str_of(member(block, "id"@)) { Some(x) => x, None => seq![] },
                    match str_of(member(block, "name"@)) { Some(x) => x, None => seq![] },
                ),
            ))
        } else {
            None
        };
        match opened {
            None => LineOutcome::Continue(st, seq![]),
            Some((open, view)) => LineOutcome::Continue(
                DecoderView { next_block: (st.next_block + 1) as usize, current: Some((open, st.next_block)), ..st },
                (match st.current {
                    Some((_, idx)) => seq![EventView::End(idx)],
                    None => seq![],
                }).push(EventView::Start(st.next_block, view)),
            ),
        }
    } else if kind == Some("content_block_delta"@) {
        let delta = get_spec(ev, "delta"@);
        match st.current {
            None => LineOutcome::Continue(st, seq![]),
            Some((open, idx)) => LineOutcome::Continue(
                st,
                match open {
                    OpenKind::Text => match str_of(member(delta, "text"@)) {
                        Some(t) => if t.len() > 0 { seq![EventView::Delta(idx, t)] } else { seq![] },
                        None => seq![],
                    },
                    OpenKind::Reasoning => match str_of(member(delta, "thinking"@)) {
                        Some(t) => if t.len() > 0 { seq![EventView::Delta(idx, t)] } else { seq![] },
                        None => seq![],
                    },
                    OpenKind::ToolCall => seq![
                        EventView::Delta(
                            idx,
                            match str_of(member(delta, "partial_json"@)) { Some(t) => t, None => seq![] },
                        ),
                    ],
                },
            ),
        }
    } else if kind == Some("content_block_stop"@) {
        match st.current {
            Some((_, idx)) => LineOutcome::Continue(DecoderView { current: None, ..st }, seq![EventView::End(idx)]),
            None => LineOutcome::Continue(st, seq![]),
        }
    } else if kind == Some("message_delta"@) {
        LineOutcome::Continue(
            DecoderView {
                stop_reason: str_of(member(get_spec(ev, "delta"@), "stop_reason"@)),
                output_tokens: count_in(get_spec(ev, "usage"@), "output_tokens"@),
                ..st
            },
            seq![],
        )
    } else if kind == Some("message_stop"@) {
        LineOutcome::Done(EndView::Finished(Some(stream_usage(st)), st.stop_reason))
    } else {
        LineOutcome::Continue(st, seq![])
    }
}

/// What one line of a stream does: a `data:` line carries `[DONE]`, which
/// ends the stream, or a JSON event; other lines, and data that is not
/// JSON, are skipped.
pub open spec fn line_step(st: DecoderView, line: Seq<char>) -> LineOutcome {
    if !has_prefix(line, "data:"@) {
        LineOutcome::Continue(st, seq![])
    } else {
        let data = trim_start(line.skip(5));
        if data == "[DONE]"@ {
            LineOutcome::Done(EndView::Finished(None, None))
        } else {
            match json_parse(data) {
                None => LineOutcome::Continue(st, seq![]),
                Some(ev) => event_step(st, ev),
            }
        }
    }
}

/// The index of the first line feed of `bytes` from `i` on.
pub open spec fn newline_from(bytes: Seq<u8>, i: int) -> Option<int>
    decreases bytes.len() - i,
{
    if i < 0 || i >= bytes.len() {
        None
    } else if bytes[i] == 10 {
        Some(i)
    } else {
        newline_from(bytes, i + 1)
    }
}

/// The line of `bytes` from `start` to the line feed at `end`, without a
/// carriage return before the line feed.
pub open spec fn line_bytes(bytes: Seq<u8>, start: int, end: int) -> Seq<u8> {
    let raw = bytes.subrange(start, end);
    if raw.len() > 0 && raw.last() == 13 { raw.drop_last() } else { raw }
}

/// Decoding the complete lines of `bytes` from `pos` on, from state `st`:
/// the state after them, where the unread bytes start, the events, and how
/// the stream ended, if it did.
pub open spec fn decode_from(st: DecoderView, bytes: Seq<u8>, pos: int) -> (DecoderView, int, Seq<EventView>, Option<EndView>)
    decreases bytes.len() - pos,
{
    if pos < 0 || pos > bytes.len() {
        (st, pos, seq![], None)
    } else {
        match newline_from(bytes, pos) {
            None => (st, pos, seq![], None),
            Some(nl) => if nl < pos || nl >= bytes.len() {
                (st, pos, seq![], None)
            } else {
                match line_step(st, utf8_lossy(line_bytes(bytes, pos, nl))) {
                    LineOutcome::Done(end) => (st, nl + 1, seq![], Some(end)),
                    LineOutcome::Continue(next, events) => {
                        let (last, rest, more, end) = decode_from(next, bytes, nl + 1);
                        (last, rest, events + more, end)
                    },
                }
            },
        }
    }
}

proof fn lemma_newline_bounds(bytes: Seq<u8>, i: int)
    ensures
        match newline_from(bytes, i) {
            Some(nl) => i <= nl < bytes.len() && bytes[nl] == 10,
            None => true,
        },
    decreases bytes.len() - i,
{
    if 0 <= i < bytes.len() && bytes[i] != 10 {
        lemma_newline_bounds(bytes, i + 1);
    }
}

/// The reading of a streamed response: bytes come in as they arrive; the
/// decoder hands back the events of each complete line and tells when the
/// stream ends.
pub struct StreamDecoder {
    buf: Vec<u8>,
    next_block: usize,
    current: Option<(OpenKind, usize)>,
    input_tokens: Option<i32>,
    output_tokens: Option<i32>,
    cached_tokens: Option<i32>,
    cache_creation_tokens: Option<i32>,
    stop_reason: Option<String>,
}

/// A decoded step of a stream.
pub enum Decoded {
    Continue(Vec<StreamEvent>),
    Done(Result<StreamEnd, LlmError>),
}

/// Whether `end` is the end `view` describes.
pub open spec fn end_matches(end: Result<StreamEnd, LlmError>, view: EndView) -> bool {
    match view {
        EndView::Finished(usage, stop) => end matches Ok(e) && e.usage == usage && opt_view(e.stop_reason) == stop,
        EndView::Failed(kind, message) => end matches Err(e) && e.kind == kind && e.message@ == message
            && e.status is None && e.request_id is None,
    }
}

impl StreamDecoder {
    /// What the decoder knows, as values.
    pub closed spec fn view(&self) -> DecoderView {
        DecoderView {
            next_block: self.next_block,
            current: self.current,
            input_tokens: self.input_tokens,
            output_tokens: self.output_tokens,
            cached_tokens: self.cached_tokens,
            cache_creation_tokens: self.cache_creation_tokens,
            stop_reason: opt_view(self.stop_reason),
        }
    }

    /// The bytes of a line not yet complete.
    pub closed spec fn pending(&self) -> Seq<u8> {
        self.buf@
    }

    /// A decoder before the first byte.
    pub fn new() -> (r: StreamDecoder)
        ensures
            r.view() == (DecoderView {
                next_block: 0,
                current: None,
                input_tokens: None,
                output_tokens: None,
                cached_tokens: None,
                cache_creation_tokens: None,
                stop_reason: None,
            }),
            r.pending().len() == 0,
    {
        StreamDecoder {
            buf: Vec::new(),
            next_block: 0,
            current: None,
            input_tokens: None,
            output_tokens: None,
            cached_tokens: None,
            cache_creation_tokens: None,
            stop_reason: None,
        }
    }

    /// The index the next block will get.
    pub fn next_block(&self) -> (r: usize)
        ensures
            r == self.view().next_block,
    {
        self.next_block
    }

    /// How many bytes of a line not yet complete the decoder holds.
    pub fn pending_len(&self) -> (r: usize)
        ensures
            r == self.pending().len(),
    {
        self.buf.len()
    }

    fn usage(&self) -> (r: TokenUsage)
        ensures
            r == stream_usage(self.view()),
    {
        TokenUsage {
            prompt_tokens: self.input_tokens,
            completion_tokens: self.output_tokens,
            total_tokens: match (self.input_tokens, self.output_tokens) {
                (Some(i), Some(o)) => Some(i.wrapping_add(o)),
                _ => None,
            },
            cached_tokens: self.cached_tokens,
            cache_creation_tokens: self.cache_creation_tokens,
        }
    }

    /// How the stream ends when its bytes run out before it said so: with
    /// the token counts and stop reason seen so far.
    pub fn finish(&self) -> (r: StreamEnd)
        ensures
            r.usage == Some(stream_usage(self.view())),
            opt_view(r.stop_reason) == self.view().stop_reason,
    {
        StreamEnd {
            usage: Some(self.usage()),
            stop_reason: match &self.stop_reason {
                Some(s) => Some(s.clone()),
                None => None,
            },
        }
    }

    fn on_event(&mut self, ev: &JsonValue) -> (r: Decoded)
        requires
            old(self).next_block < usize::MAX,
        ensures
            final(self).pending() == old(self).pending(),
            match event_step(old(self).view(), *ev) {
                LineOutcome::Done(end) => r matches Decoded::Done(e) && end_matches(e, end),
                LineOutcome::Continue(st, events) => r matches Decoded::Continue(es) && final(self).view() == st
                    && events_view(es@) == events,
            },
    {
        let kind: Vec<char> = match ev.get("type") {
            Some(JsonValue::Str(k)) => chars_of(k.as_str()),
            _ => chars_of("-"),
        };
        let ghost kv = str_of(get_spec(*ev, "type"@));
        assert(kv is Some ==> kind@ == kv->0);
        assert(kv is None ==> kind@ == "-"@);
        let mut events: Vec<StreamEvent> = Vec::new();
        proof {
            reveal_strlit("-");
            reveal_strlit("error");
            reveal_strlit("message_start");
            reveal_strlit("content_block_start");
            reveal_strlit("content_block_delta");
            reveal_strlit("content_block_stop");
            reveal_strlit("message_delta");
            reveal_strlit("message_stop");
            assert("-"@.len() == 1);
        }
        if eq_str(&kind, "error") {
            let err = ev.get("error");
            let message = match member_of(err, "message") {
                Some(JsonValue::Str(m)) => m.clone(),
                _ => "Anthropic stream error".to_owned(),
            };
            let body_type: Option<&str> = match member_of(err, "type") {
                Some(JsonValue::Str(t)) => Some(t.as_str()),
                _ => None,
            };
            return Decoded::Done(Err(stream_error(message, None, body_type)));
        } else if eq_str(&kind, "message_start") {
            let usage = member_of(ev.get("message"), "usage");
            self.input_tokens = count_opt(usage, "input_tokens");
            self.cached_tokens = count_opt(usage, "cache_read_input_tokens");
            self.cache_creation_tokens = count_opt(usage, "cache_creation_input_tokens");
        } else if eq_str(&kind, "content_block_start") {
            let block = ev.get("content_block");
            let block_type: Vec<char> = match member_of(block, "type") {
                Some(JsonValue::Str(t)) => chars_of(t.as_str()),
                _ => chars_of("-"),
            };
            proof {
                reveal_strlit("text");
                reveal_strlit("thinking");
                reveal_strlit("tool_use");
            }
            let opened: Option<(OpenKind, BlockKind)> = if eq_str(&block_type, "text") {
                Some((OpenKind::Text, BlockKind::Text))
            } else if eq_str(&block_type, "thinking") {
                Some((OpenKind::Reasoning, BlockKind::Reasoning))
            } else if eq_str(&block_type, "tool_use") {
                let id = match member_of(block, "id") {
                    Some(JsonValue::Str(x)) => x.clone(),
                    _ => String::new(),
                };
                let name = match member_of(block, "name") {
                    Some(JsonValue::Str(x)) => x.clone(),
                    _ => String::new(),
                };
                Some((OpenKind::ToolCall, BlockKind::ToolCall { id, name }))
            } else {
                None
            };
            match opened {
                None => {},
                Some((open, kind)) => {
                    match self.current {
                        Some((_, idx)) => {
                            events.push(StreamEvent::BlockEnd { index: idx });
                        },
                        None => {},
                    }
                    let idx = self.next_block;
                    self.next_block = self.next_block + 1;
                    self.current = Some((open, idx));
                    events.push(StreamEvent::BlockStart { index: idx, kind });
                },
            }
        } else if eq_str(&kind, "content_block_delta") {
            let delta = ev.get("delta");
            match self.current {
                None => {},
                Some((open, idx)) => match open {
                    OpenKind::Text => match member_of(delta, "text") {
                        Some(JsonValue::Str(t)) => if chars_of(t.as_str()).len() > 0 {
                            events.push(StreamEvent::BlockDelta { index: idx, delta: t.clone() });
                        },
                        _ => {},
                    },
                    OpenKind::Reasoning => match member_of(delta, "thinking") {
                        Some(JsonValue::Str(t)) => if chars_of(t.as_str()).len() > 0 {
                            events.push(StreamEvent::BlockDelta { index: idx, delta: t.clone() });
                        },
                        _ => {},
                    },
                    OpenKind::ToolCall => {
                        let partial = match member_of(delta, "partial_json") {
                            Some(JsonValue::Str(t)) => t.clone(),
                            _ => String::new(),
                        };
                        events.push(StreamEvent::BlockDelta { index: idx, delta: partial });
                    },
                },
            }
        } else if eq_str(&kind, "content_block_stop") {
            match self.current {
                Some((_, idx)) => {
                    self.current = None;
                    events.push(StreamEvent::BlockEnd { index: idx });
                },
                None => {},
            }
        } else if eq_str(&kind, "message_delta") {
            self.stop_reason = match member_of(ev.get("delta"), "stop_reason") {
                Some(JsonValue::Str(s)) => Some(s.clone()),
                _ => None,
            };
            self.output_tokens = count_opt(ev.get("usage"), "output_tokens");
        } else if eq_str(&kind, "message_stop") {
            return Decoded::Done(Ok(self.finish()));
        }
        assert(events_view(events@) =~= match event_step(old(self).view(), *ev) {
            LineOutcome::Continue(_, es) => es,
            LineOutcome::Done(_) => seq![],
        });
        Decoded::Continue(events)
    }

    fn on_line(&mut self, line: &str) -> (r: Decoded)
        requires
            old(self).next_block < usize::MAX,
        ensures
            final(self).pending() == old(self).pending(),
            match line_step(old(self).view(), line@) {
                LineOutcome::Done(end) => r matches Decoded::Done(e) && end_matches(e, end),
                LineOutcome::Continue(st, events) => r matches Decoded::Continue(es) && final(self).view() == st
                    && events_view(es@) == events,
            },
    {
        let cs = chars_of(line);
        proof {
            reveal_strlit("data:");
            reveal_strlit("[DONE]");
        }
        if !crate::text::has_prefix_str(&cs, "data:") {
            let none: Vec<StreamEvent> = Vec::new();
            assert(events_view(none@) =~= seq![]);
            return Decoded::Continue(none);
        }
        let mut i: usize = 5;
        assert(cs@.skip(5) == line@.skip(5));
        while i < cs.len() && crate::text::is_whitespace(cs[i])
            invariant
                5 <= i <= cs.len(),
                trim_start(cs@.skip(5)) == trim_start(cs@.skip(i as int)),
            decreases cs.len() - i,
        {
            assert(cs@.skip(i as int).drop_first() =~= cs@.skip(i + 1));
            i = i + 1;
        }
        assert(cs@.subrange(i as int, cs@.len() as int) =~= cs@.skip(i as int));
        let data = string_of(&cs, i, cs.len());
        if eq_str(&chars_of(data.as_str()), "[DONE]") {
            return Decoded::Done(Ok(StreamEnd { usage: None, stop_reason: None }));
        }
        match parse_json(data.as_str()) {
            None => {
                let none: Vec<StreamEvent> = Vec::new();
                assert(events_view(none@) =~= seq![]);
                Decoded::Continue(none)
            },
            Some(ev) => self.on_event(&ev),
        }
    }

    /// Takes the bytes `chunk` that arrived: decodes each line they
    /// complete (see `decode_from`) and keeps the bytes of a line not yet
    /// complete. Hands back the events, or how the stream ended.
    pub fn feed(&mut self, chunk: &[u8]) -> (r: Decoded)
        requires
            old(self).view().next_block + old(self).pending().len() + chunk@.len() < usize::MAX,
        ensures
            ({
                let (st, pos, events, end) = decode_from(old(self).view(), old(self).pending() + chunk@, 0);
                match end {
                    Some(e) => r matches Decoded::Done(x) && end_matches(x, e),
                    None => r matches Decoded::Continue(es) && events_view(es@) == events && final(self).view() == st
                        && final(self).pending() == (old(self).pending() + chunk@).skip(pos),
                }
            }),
    {
        let mut all: Vec<u8> = Vec::new();
        std::mem::swap(&mut all, &mut self.buf);
        let mut j: usize = 0;
        let ghost start = all@;
        while j < chunk.len()
            invariant
                j <= chunk@.len(),
                all@ == start + chunk@.take(j as int),
            decreases chunk.len() - j,
        {
            all.push(chunk[j]);
            assert(start + chunk@.take(j + 1) =~= (start + chunk@.take(j as int)).push(chunk@[j as int]));
            j = j + 1;
        }
        assert(chunk@.take(chunk@.len() as int) =~= chunk@);
        let ghost bytes = all@;
        let ghost st0 = self.view();
        let mut out: Vec<StreamEvent> = Vec::new();
        let mut pos: usize = 0;
        loop
            invariant
                pos <= all@.len(),
                bytes == all@,
                bytes == old(self).pending() + chunk@,
                st0 == old(self).view(),
                self.view().next_block + (all@.len() - pos) < usize::MAX,
                ({
                    let (st, p, events, end) = decode_from(st0, bytes, 0);
                    let (st2, p2, events2, end2) = decode_from(self.view(), bytes, pos as int);
                    st == st2 && p == p2 && events == events_view(out@) + events2 && end == end2
                }),
            decreases all@.len() - pos,
        {
            let mut nl: usize = pos;
            while nl < all.len() && all[nl] != 10
                invariant
                    pos <= nl <= all@.len(),
                    newline_from(all@, pos as int) == newline_from(all@, nl as int),
                decreases all@.len() - nl,
            {
                nl = nl + 1;
            }
            proof {
                lemma_newline_bounds(all@, pos as int);
            }
            if nl == all.len() {
                let mut rest: Vec<u8> = Vec::new();
                let mut k: usize = pos;
                while k < all.len()
                    invariant
                        pos <= k <= all@.len(),
                        rest@ == all@.subrange(pos as int, k as int),
                    decreases all@.len() - k,
                {
                    rest.push(all[k]);
                    assert(all@.subrange(pos as int, k + 1) =~= all@.subrange(pos as int, k as int).push(all@[k as int]));
                    k = k + 1;
                }
                assert(rest@ =~= bytes.skip(pos as int));
                self.buf = rest;
                assert(events_view(out@) + seq![] =~= events_view(out@));
                return Decoded::Continue(out);
            }
            let mut end: usize = nl;
            if end > pos && all[end - 1] == 13 {
                end = end - 1;
            }
            let mut raw: Vec<u8> = Vec::new();
            let mut k: usize = pos;
            while k < end
                invariant
                    pos <= k <= end,
                    end <= all@.len(),
                    raw@ == all@.subrange(pos as int, k as int),
                decreases end - k,
            {
                raw.push(all[k]);
                assert(all@.subrange(pos as int, k + 1) =~= all@.subrange(pos as int, k as int).push(all@[k as int]));
                k = k + 1;
            }
            assert(raw@ =~= line_bytes(bytes, pos as int, nl as int));
            let line = lossy_text(&raw);
            let ghost before = self.view();
            let ghost out_before = out@;
            match self.on_line(line.as_str()) {
                Decoded::Done(e) => {
                    return Decoded::Done(e);
                },
                Decoded::Continue(events) => {
                    let mut es = events;
                    let ghost added = events_view(es@);
                    let mut rev: Vec<StreamEvent> = Vec::new();
                    let ghost ev0 = es@;
                    while es.len() > 0
                        invariant
                            rev@.len() + es@.len() == ev0.len(),
                            es@ == ev0.take(es@.len() as int),
                            forall|q: int| 0 <= q < rev@.len() ==> #[trigger] rev@[q] == ev0[ev0.len() - 1 - q],
                        decreases es.len(),
                    {
                        let e = es.pop().unwrap();
                        rev.push(e);
                        assert(es@ =~= ev0.take(es@.len() as int));
                    }
                    while rev.len() > 0
                        invariant
                            out@.len() >= out_before.len(),
                            rev@.len() + (out@.len() - out_before.len()) == ev0.len(),
                            out@.take(out_before.len() as int) == out_before,
                            forall|q: int| 0 <= q < rev@.len() ==> #[trigger] rev@[q] == ev0[ev0.len() - 1 - q],
                            forall|q: int| out_before.len() <= q < out@.len() ==> #[trigger] out@[q] == ev0[q - out_before.len()],
                        decreases rev.len(),
                    {
                        let e = rev.pop().unwrap();
                        out.push(e);
                        assert(out@.take(out_before.len() as int) =~= out_before);
                    }
                    assert(out@ =~= out_before + ev0);
                    assert(events_view(out@) =~= events_view(out_before) + added);
                },
            }
            pos = nl + 1;
        }
    }
}

/// The count under `key` of the optional value `u`, cut to 32 bits.
fn count_opt(u: Option<&JsonValue>, key: &str) -> (r: Option<i32>)
    ensures
        r == count_in(match u { Some(x) => Some(*x), None => None }, key@),
{
    match as_i64(member_of(u, key)) {
        Some(n) => Some(#[verifier::truncate] (n as i32)),
        None => None,
    }
}


/// The string ids of the models a model list `items` holds, in order.
pub open spec fn listed_ids(items: Seq<JsonValue>) -> Seq<Seq<char>>
    decreases items.len(),
{
    if items.len() == 0 {
        seq![]
    } else {
        let rest = listed_ids(items.drop_last());
        match str_of(get_spec(items.last(), "id"@)) {
            Some(id) => rest.push(id),
            None => rest,
        }
    }
}

/// The ids of the models a model list answer `data` names: the string
/// `id` of each entry of its `data` array; none when there is no array.
pub fn model_ids(data: &JsonValue) -> (r: Vec<String>)
    ensures
        r@.map_values(|s: String| s@) == match get_spec(*data, "data"@) {
            Some(JsonValue::Array(items)) => listed_ids(items@),
            _ => seq![],
        },
{
    let mut out: Vec<String> = Vec::new();
    match data.get("data") {
        Some(JsonValue::Array(items)) => {
            let mut i: usize = 0;
            while i < items.len()
                invariant
                    i <= items.len(),
                    out@.map_values(|s: String| s@) == listed_ids(items@.take(i as int)),
                decreases items.len() - i,
            {
                assert(items@.take(i + 1).drop_last() =~= items@.take(i as int));
                let ghost before = out@;
                match items[i].get("id") {
                    Some(JsonValue::Str(id)) => {
                        out.push(id.clone());
                        assert(out@.map_values(|s: String| s@) =~= before.map_values(|s: String| s@).push(id@));
                    },
                    _ => {},
                }
                i = i + 1;
            }
            assert(items@.take(items.len() as int) =~= items@);
        },
        _ => {
            assert(out@.map_values(|s: String| s@) =~= Seq::<Seq<char>>::empty());
        },
    }
    out
}

/// The id a model answer `data` gives, or `model`, the one asked about,
/// when it gives none.
pub fn model_id_of(data: &JsonValue, model: &str) -> (r: String)
    ensures
        r@ == match str_of(get_spec(*data, "id"@)) {
            Some(id) => id,
            None => model@,
        },
{
    match data.get("id") {
        Some(JsonValue::Str(id)) => id.clone(),
        _ => model.to_owned(),
    }
}

} // verus!
