//! Reading the agent server's replies about sessions.

use vstd::prelude::*;
use crate::chat::AppEvent;
use crate::json::{JsonValue, get_spec};
use crate::tools::{number_u64, str_field, str_of, u64_field};
use crate::tui::SessionInfo;

verus! {

/// The uuid `str::parse::<uuid::Uuid>` reads from `text`, as an integer.
pub uninterp spec fn uuid_parse(text: Seq<char>) -> Option<u128>;

/// Reads `text` as a uuid with `uuid::Uuid`'s `FromStr`. The contract
/// names the result.
#[verifier::external_body]
fn parse_uuid(text: &str) -> (r: Option<u128>)
    ensures
        r == uuid_parse(text@),
{
    text.parse::<uuid::Uuid>().ok().map(|u| u.as_u128())
}

/// A session as values: id, model, context window, write and read tokens.
pub type SessionView = (u128, Seq<char>, u64, Seq<char>, Seq<char>);

/// A session as values.
pub open spec fn session_view(s: SessionInfo) -> SessionView {
    (s.session_id, s.model@, s.context_window, s.write_token@, s.read_token@)
}

/// The string under `key`, or `default`.
pub open spec fn str_or(v: Option<JsonValue>, default: Seq<char>) -> Seq<char> {
    match str_of(v) {
        Some(s) => s,
        None => default,
    }
}

/// The token under `key` of the object under `tokens`, or nothing.
pub open spec fn token_of(v: JsonValue, key: Seq<char>) -> Seq<char> {
    match get_spec(v, "tokens"@) {
        Some(t) => str_or(get_spec(t, key), seq![]),
        None => seq![],
    }
}

/// The context window the server reports, or 8192.
pub open spec fn window_of(v: JsonValue) -> u64 {
    match number_u64(get_spec(v, "context_window"@)) {
        Some(n) => n,
        None => 8192,
    }
}

/// The session the server describes in `v`: none without a session id that
/// reads as a uuid; an unknown model, a window of 8192 and empty tokens
/// where the reply does not say.
pub open spec fn session_spec(v: JsonValue) -> Option<SessionView> {
    match str_of(get_spec(v, "session_id"@)) {
        Some(t) => match uuid_parse(t) {
            Some(id) => Some(
                (
                    id,
                    str_or(get_spec(v, "model"@), "unknown"@),
                    window_of(v),
                    token_of(v, "write"@),
                    token_of(v, "read"@),
                ),
            ),
            None => None,
        },
        None => None,
    }
}

/// The string under `key` of `v`, or `default`.
fn str_or_default(v: &JsonValue, key: &str, default: &str) -> (r: String)
    ensures
        r@ == str_or(get_spec(*v, key@), default@),
{
    match str_field(v, key) {
        Some(s) => s,
        None => default.to_owned(),
    }
}

/// The token under `key` of the object under `tokens`.
fn token(v: &JsonValue, key: &str) -> (r: String)
    ensures
        r@ == token_of(*v, key@),
{
    proof {
        reveal_strlit("");
        assert(""@ =~= Seq::<char>::empty());
    }
    match v.get("tokens") {
        Some(t) => str_or_default(t, key, ""),
        None => String::new(),
    }
}

/// The session the server describes in `v` (see `session_spec`).
pub fn session_info(v: &JsonValue) -> (r: Option<SessionInfo>)
    ensures
        match r {
            Some(s) => session_spec(*v) == Some(session_view(s)),
            None => session_spec(*v) is None,
        },
{
    let text = match str_field(v, "session_id") {
        Some(t) => t,
        None => {
            return None;
        },
    };
    let id = match parse_uuid(text.as_str()) {
        Some(id) => id,
        None => {
            return None;
        },
    };
    let window = match u64_field(v, "context_window") {
        Some(n) => n,
        None => 8192,
    };
    let r = SessionInfo {
        session_id: id,
        model: str_or_default(v, "model", "unknown"),
        context_window: window,
        write_token: token(v, "write"),
        read_token: token(v, "read"),
    };
    Some(r)
}

/// The sessions described by `items`, in order, skipping those without a
/// readable id.
pub open spec fn listed(items: Seq<JsonValue>) -> Seq<SessionView>
    decreases items.len(),
{
    if items.len() == 0 {
        seq![]
    } else {
        let rest = listed(items.drop_last());
        match session_spec(items.last()) {
            Some(s) => rest.push(s),
            None => rest,
        }
    }
}

/// The sessions of a list reply: those under `sessions` (see `listed`), or
/// none when the reply has no such list.
pub fn sessions_of(resp: &JsonValue) -> (r: Vec<SessionInfo>)
    ensures
        r@.map_values(|s: SessionInfo| session_view(s)) == match get_spec(*resp, "sessions"@) {
            Some(JsonValue::Array(items)) => listed(items@),
            _ => seq![],
        },
{
    let mut out: Vec<SessionInfo> = Vec::new();
    let items: &Vec<JsonValue> = match resp.get("sessions") {
        Some(JsonValue::Array(items)) => items,
        _ => {
            return out;
        },
    };
    let mut i: usize = 0;
    while i < items.len()
        invariant
            i <= items.len(),
            out@.map_values(|s: SessionInfo| session_view(s)) == listed(items@.take(i as int)),
        decreases items.len() - i,
    {
        assert(items@.take(i + 1).drop_last() =~= items@.take(i as int));
        let ghost before = out@;
        match session_info(&items[i]) {
            Some(s) => {
                out.push(s);
                assert(out@.map_values(|s: SessionInfo| session_view(s)) =~= before.map_values(
                    |s: SessionInfo| session_view(s),
                ).push(session_view(out@.last())));
            },
            None => {},
        }
        i = i + 1;
    }
    assert(items@.take(items.len() as int) =~= items@);
    out
}

/// The event a create reply gives: the new session's id, tokens and
/// window (see `session_spec`); `None` when the reply has no readable id.
pub fn created_session(resp: &JsonValue) -> (r: Option<AppEvent>)
    ensures
        match session_spec(*resp) {
            Some((id, _, window, write, read)) => r matches Some(
                AppEvent::SessionCreated { session_id, write_token, read_token, context_window },
            ) && session_id == id && write_token@ == write && read_token@ == read && context_window == window,
            None => r is None,
        },
{
    match session_info(resp) {
        Some(s) => Some(
            AppEvent::SessionCreated {
                session_id: s.session_id,
                write_token: s.write_token,
                read_token: s.read_token,
                context_window: s.context_window,
            },
        ),
        None => None,
    }
}

} // verus!
