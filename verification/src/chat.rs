//! The chat client's state: the session list, the transcript of the open
//! session, and how events from the server and snapshots of a session's
//! trace update them.

use vstd::prelude::*;
use crate::json::{JsonValue, compact_text, get_spec, json_compact, json_parse, parse_json};
use crate::text::{append_str, is_ws, opt_view, trim};
use crate::tui::{ChatItem, SessionInfo, SseEvent, Status, ToolDecision};

verus! {

/// The screen the client shows.
#[derive(Debug, Clone, Copy, PartialEq, Eq, Structural)]
pub enum Screen {
    SessionList,
    Chat,
}

/// A transcript entry as a value.
pub enum ItemView {
    User(Seq<char>),
    Assistant(Seq<char>),
    Reasoning(Seq<char>, bool),
    Tool {
        id: Seq<char>,
        name: Seq<char>,
        args: Seq<char>,
        result: Option<Seq<char>>,
        decision: Option<ToolDecision>,
        expanded: bool,
    },
    Error(Seq<char>),
}

impl View for ChatItem {
    type V = ItemView;

    open spec fn view(&self) -> ItemView {
        match self {
            ChatItem::User { text } => ItemView::User(text@),
            ChatItem::Assistant { text } => ItemView::Assistant(text@),
            ChatItem::Reasoning { text, collapsed } => ItemView::Reasoning(text@, *collapsed),
            ChatItem::Tool { id, name, args, result, decision, expanded } => ItemView::Tool {
                id: id@,
                name: name@,
                args: args@,
                result: match result {
                    Some(r) => Some(r@),
                    None => None,
                },
                decision: *decision,
                expanded: *expanded,
            },
            ChatItem::Error { text } => ItemView::Error(text@),
        }
    }
}

/// The transcript as values.
pub open spec fn items_view(items: Seq<ChatItem>) -> Seq<ItemView> {
    items.map_values(|i: ChatItem| i@)
}

/// Whether an entry is the tool call `id`.
pub open spec fn is_tool(item: ItemView, id: Seq<char>) -> bool {
    item matches ItemView::Tool { id: tid, .. } && tid == id
}

/// The index of the first tool call `id` in `items` from `i` on, or the
/// length of `items`.
pub open spec fn tool_index(items: Seq<ItemView>, id: Seq<char>, i: int) -> int
    decreases items.len() - i,
{
    if i < 0 || i >= items.len() {
        items.len() as int
    } else if is_tool(items[i], id) {
        i
    } else {
        tool_index(items, id, i + 1)
    }
}

/// The client's state.
pub struct App {
    pub view: Screen,
    pub should_quit: bool,
    pub sessions: Vec<SessionInfo>,
    /// The highlighted row of the session list.
    pub selected: Option<usize>,
    /// The open session's uuid, as an integer.
    pub session_id: Option<u128>,
    pub write_token: Option<String>,
    pub read_token: Option<String>,
    pub ctx_window: u64,
    pub ctx_used: u64,
    pub items: Vec<ChatItem>,
    pub pending_tool_id: Option<String>,
    pub status: Status,
    pub input: String,
    /// Lines above the bottom that the user has scrolled; 0 keeps the view
    /// at the bottom.
    pub scroll_from_bottom: u16,
    /// The assistant entry a text delta goes to.
    pub assistant_idx: Option<usize>,
    /// The reasoning entry a reasoning delta goes to.
    pub reasoning_idx: Option<usize>,
    pub error_msg: Option<String>,
}

/// The fields of `a` and `b` other than the transcript and streaming state
/// agree.
pub open spec fn same_session(a: App, b: App) -> bool {
    &&& a.view == b.view
    &&& a.should_quit == b.should_quit
    &&& a.sessions == b.sessions
    &&& a.selected == b.selected
    &&& a.session_id == b.session_id
    &&& a.write_token == b.write_token
    &&& a.read_token == b.read_token
    &&& a.ctx_window == b.ctx_window
    &&& a.input == b.input
    &&& a.scroll_from_bottom == b.scroll_from_bottom
    &&& a.error_msg == b.error_msg
}

/// The text an entry gets when a delta is appended to it, if it is of the
/// kind the delta is for.
pub open spec fn appended(item: ItemView, text: Seq<char>, reasoning: bool) -> ItemView {
    match item {
        ItemView::Assistant(t) => if reasoning { item } else { ItemView::Assistant(t + text) },
        ItemView::Reasoning(t, c) => if reasoning { ItemView::Reasoning(t + text, c) } else { item },
        _ => item,
    }
}

/// The transcript after a tool call arrives: the first entry for `id` gets
/// `args` (appended to what it had when `delta`) and `name`; without one, a
/// new entry is added.
pub open spec fn with_tool_call(items: Seq<ItemView>, id: Seq<char>, name: Seq<char>, args: Seq<char>, delta: bool) -> Seq<ItemView> {
    let k = tool_index(items, id, 0);
    if k < items.len() {
        match items[k] {
            ItemView::Tool { id: tid, name: _, args: old_args, result, decision, expanded } => items.update(k, ItemView::Tool {
                id: tid,
                name,
                args: if delta { old_args + args } else { args },
                result,
                decision,
                expanded,
            }),
            _ => items,
        }
    } else {
        items.push(ItemView::Tool { id, name, args, result: None, decision: None, expanded: false })
    }
}

/// The transcript after the result of the call `id` arrives: the first entry
/// for `id` gets the result, and, when it has no decision yet, the decision
/// `decided`.
pub open spec fn with_tool_result(items: Seq<ItemView>, id: Seq<char>, content: Seq<char>, decided: Option<ToolDecision>) -> Seq<ItemView> {
    let k = tool_index(items, id, 0);
    if k < items.len() {
        match items[k] {
            ItemView::Tool { id: tid, name, args, result: _, decision, expanded } => items.update(k, ItemView::Tool {
                id: tid,
                name,
                args,
                result: Some(content),
                decision: match decision {
                    Some(d) => Some(d),
                    None => decided,
                },
                expanded,
            }),
            _ => items,
        }
    } else {
        items
    }
}

/// What a chat event does to the client.
pub open spec fn sse_step(old: App, ev: SseEvent, new: App) -> bool {
    let items = items_view(old.items@);
    let after = items_view(new.items@);
    &&& same_session(old, new)
    &&& match ev {
        SseEvent::Content { text } => {
            &&& new.reasoning_idx is None
            &&& new.pending_tool_id == old.pending_tool_id
            &&& new.status == old.status
            &&& new.ctx_used == old.ctx_used
            &&& match old.assistant_idx {
                Some(i) => new.assistant_idx == old.assistant_idx && after == (if i < items.len() {
                    items.update(i as int, appended(items[i as int], text@, false))
                } else {
                    items
                }),
                None => after == items.push(ItemView::Assistant(text@)) && new.assistant_idx == Some(
                    items.len() as usize,
                ),
            }
        },
        SseEvent::Reasoning { text } => {
            &&& new.assistant_idx is None
            &&& new.pending_tool_id == old.pending_tool_id
            &&& new.status == old.status
            &&& new.ctx_used == old.ctx_used
            &&& match old.reasoning_idx {
                Some(i) => new.reasoning_idx == old.reasoning_idx && after == (if i < items.len() {
                    items.update(i as int, appended(items[i as int], text@, true))
                } else {
                    items
                }),
                None => after == items.push(ItemView::Reasoning(text@, true)) && new.reasoning_idx == Some(
                    items.len() as usize,
                ),
            }
        },
        SseEvent::ToolCallDelta { id, name, arguments } => {
            &&& new.assistant_idx is None && new.reasoning_idx is None
            &&& new.pending_tool_id == Some(id)
            &&& new.status == Status::Running
            &&& new.ctx_used == old.ctx_used
            &&& after == with_tool_call(items, id@, name@, arguments@, true)
        },
        SseEvent::ToolCallComplete { id, name, arguments } => {
            &&& new.assistant_idx is None && new.reasoning_idx is None
            &&& new.pending_tool_id == Some(id)
            &&& new.status == Status::Running
            &&& new.ctx_used == old.ctx_used
            &&& after == with_tool_call(items, id@, name@, arguments@, false)
        },
        SseEvent::ToolResult { id, content, denied } => {
            &&& new.assistant_idx is None
            &&& new.reasoning_idx == old.reasoning_idx
            &&& new.pending_tool_id == (if opt_view(old.pending_tool_id) == Some(id@) { None } else { old.pending_tool_id })
            &&& new.status == old.status
            &&& new.ctx_used == old.ctx_used
            &&& after == with_tool_result(
                items,
                id@,
                content@,
                Some(if denied { ToolDecision::Denied } else { ToolDecision::Approved }),
            )
        },
        SseEvent::Metrics { prompt_tokens, completion_tokens, total_tokens } => {
            &&& new.assistant_idx == old.assistant_idx && new.reasoning_idx == old.reasoning_idx
            &&& new.pending_tool_id == old.pending_tool_id
            &&& new.status == old.status
            &&& after == items
            &&& new.ctx_used == match total_tokens {
                Some(t) => t as int,
                None => match (prompt_tokens, completion_tokens) {
                    (Some(p), Some(c)) => p + c,
                    _ => old.ctx_used as int,
                },
            }
        },
        SseEvent::TurnComplete => {
            &&& new.assistant_idx is None && new.reasoning_idx is None
            &&& new.pending_tool_id == old.pending_tool_id
            &&& new.status == Status::Idle
            &&& new.ctx_used == old.ctx_used
            &&& after == items
        },
        SseEvent::Interrupted => {
            &&& new.assistant_idx is None && new.reasoning_idx is None
            &&& new.pending_tool_id == old.pending_tool_id
            &&& new.status == Status::Idle
            &&& new.ctx_used == old.ctx_used
            &&& after == items.push(ItemView::Error("Interrupted"@))
        },
        SseEvent::StreamClosed => {
            &&& new.assistant_idx == old.assistant_idx && new.reasoning_idx == old.reasoning_idx
            &&& new.pending_tool_id == old.pending_tool_id
            &&& new.status == Status::Idle
            &&& new.ctx_used == old.ctx_used
            &&& after == items
        },
        SseEvent::StreamError { message } => {
            &&& new.assistant_idx == old.assistant_idx && new.reasoning_idx == old.reasoning_idx
            &&& new.pending_tool_id == old.pending_tool_id
            &&& new.status == Status::Idle
            &&& new.ctx_used == old.ctx_used
            &&& after == items.push(ItemView::Error(message@))
        },
    }
}

/// Whether a chat event can be taken: token counts that have to be added
/// fit in 64 bits.
pub open spec fn sse_fits(ev: SseEvent) -> bool {
    ev matches SseEvent::Metrics { prompt_tokens: Some(p), completion_tokens: Some(c), total_tokens: None }
        ==> p + c <= u64::MAX
}

/// The index of the first tool call `id` in `items`, or the length.
fn find_tool(items: &Vec<ChatItem>, id: &String) -> (r: usize)
    ensures
        r == tool_index(items_view(items@), id@, 0),
{
    let ghost iv = items_view(items@);
    let mut i: usize = 0;
    while i < items.len()
        invariant
            i <= items.len(),
            iv == items_view(items@),
            tool_index(iv, id@, 0) == tool_index(iv, id@, i as int),
        decreases items.len() - i,
    {
        assert(iv[i as int] == items@[i as int]@);
        match &items[i] {
            ChatItem::Tool { id: tid, .. } => {
                if *tid == *id {
                    return i;
                }
            },
            _ => {},
        }
        i = i + 1;
    }
    i
}

impl App {
    /// A client showing the session list, connecting.
    pub fn new() -> (r: App)
        ensures
            r.view == Screen::SessionList,
            !r.should_quit,
            r.sessions@.len() == 0,
            r.selected == Some(0usize),
            r.session_id is None,
            r.items@.len() == 0,
            r.pending_tool_id is None,
            r.status == Status::Connecting,
            r.input@.len() == 0,
            r.scroll_from_bottom == 0,
            r.assistant_idx is None && r.reasoning_idx is None,
            r.error_msg is None,
            r.ctx_window == 0 && r.ctx_used == 0,
    {
        App {
            view: Screen::SessionList,
            should_quit: false,
            sessions: Vec::new(),
            selected: Some(0),
            session_id: None,
            write_token: None,
            read_token: None,
            ctx_window: 0,
            ctx_used: 0,
            items: Vec::new(),
            pending_tool_id: None,
            status: Status::Connecting,
            input: String::new(),
            scroll_from_bottom: 0,
            assistant_idx: None,
            reasoning_idx: None,
            error_msg: None,
        }
    }

    /// Appends a delta to the entry at `i`, when it is of the delta's kind.
    fn append_at(&mut self, i: usize, text: &String, reasoning: bool)
        ensures
            same_session(*old(self), *final(self)),
            final(self).assistant_idx == old(self).assistant_idx,
            final(self).reasoning_idx == old(self).reasoning_idx,
            final(self).pending_tool_id == old(self).pending_tool_id,
            final(self).status == old(self).status,
            final(self).ctx_used == old(self).ctx_used,
            items_view(final(self).items@) == (if i < old(self).items@.len() {
                items_view(old(self).items@).update(i as int, appended(items_view(old(self).items@)[i as int], text@, reasoning))
            } else {
                items_view(old(self).items@)
            }),
    {
        if i >= self.items.len() {
            return;
        }
        let ghost before = items_view(self.items@);
        let item = self.items.remove(i);
        let updated = match item {
            ChatItem::Assistant { text: t } => {
                if reasoning {
                    ChatItem::Assistant { text: t }
                } else {
                    let mut t = t;
                    append_str(&mut t, text.as_str());
                    ChatItem::Assistant { text: t }
                }
            },
            ChatItem::Reasoning { text: t, collapsed } => {
                if reasoning {
                    let mut t = t;
                    append_str(&mut t, text.as_str());
                    ChatItem::Reasoning { text: t, collapsed }
                } else {
                    ChatItem::Reasoning { text: t, collapsed }
                }
            },
            other => other,
        };
        let ghost new_item = updated@;
        self.items.insert(i, updated);
        assert(items_view(self.items@) =~= before.update(i as int, new_item));
    }

    /// Records a tool call: the first entry for `id` takes the arguments and
    /// name, or a new entry is added.
    fn put_tool_call(&mut self, id: String, name: String, args: String, delta: bool)
        ensures
            same_session(*old(self), *final(self)),
            final(self).assistant_idx == old(self).assistant_idx,
            final(self).reasoning_idx == old(self).reasoning_idx,
            final(self).pending_tool_id == old(self).pending_tool_id,
            final(self).status == old(self).status,
            final(self).ctx_used == old(self).ctx_used,
            items_view(final(self).items@) == with_tool_call(items_view(old(self).items@), id@, name@, args@, delta),
    {
        let ghost before = items_view(self.items@);
        let k = find_tool(&self.items, &id);
        if k < self.items.len() {
            let item = self.items.remove(k);
            let updated = match item {
                ChatItem::Tool { id: tid, name: _, args: old_args, result, decision, expanded } => {
                    let new_args = if delta {
                        let mut a = old_args;
                        append_str(&mut a, args.as_str());
                        a
                    } else {
                        args
                    };
                    ChatItem::Tool { id: tid, name, args: new_args, result, decision, expanded }
                },
                other => other,
            };
            let ghost new_item = updated@;
            self.items.insert(k, updated);
            assert(items_view(self.items@) =~= before.update(k as int, new_item));
        } else {
            self.items.push(ChatItem::Tool { id, name, args, result: None, decision: None, expanded: false });
            assert(items_view(self.items@) =~= before.push(self.items@.last()@));
        }
    }

    /// Records the result of the call `id` on its first entry, with
    /// `decided` as its decision when it has none yet.
    fn put_tool_result(&mut self, id: &String, content: String, decided: Option<ToolDecision>)
        ensures
            same_session(*old(self), *final(self)),
            final(self).assistant_idx == old(self).assistant_idx,
            final(self).reasoning_idx == old(self).reasoning_idx,
            final(self).pending_tool_id == old(self).pending_tool_id,
            final(self).status == old(self).status,
            final(self).ctx_used == old(self).ctx_used,
            items_view(final(self).items@) == with_tool_result(items_view(old(self).items@), id@, content@, decided),
    {
        let ghost before = items_view(self.items@);
        let k = find_tool(&self.items, id);
        if k < self.items.len() {
            let item = self.items.remove(k);
            let updated = match item {
                ChatItem::Tool { id: tid, name, args, result: _, decision, expanded } => {
                    let decision = match decision {
                        Some(d) => Some(d),
                        None => decided,
                    };
                    ChatItem::Tool { id: tid, name, args, result: Some(content), decision, expanded }
                },
                other => other,
            };
            let ghost new_item = updated@;
            self.items.insert(k, updated);
            assert(items_view(self.items@) =~= before.update(k as int, new_item));
        }
    }

    /// Takes a chat event from the server.
    pub fn handle_sse(&mut self, ev: SseEvent)
        requires
            sse_fits(ev),
        ensures
            sse_step(*old(self), ev, *final(self)),
    {
        let ghost items = items_view(self.items@);
        match ev {
            SseEvent::Content { text } => {
                self.reasoning_idx = None;
                match self.assistant_idx {
                    Some(i) => self.append_at(i, &text, false),
                    None => {
                        self.items.push(ChatItem::Assistant { text });
                        assert(items_view(self.items@) =~= items.push(self.items@.last()@));
                        self.assistant_idx = Some(self.items.len() - 1);
                    },
                }
            },
            SseEvent::Reasoning { text } => {
                self.assistant_idx = None;
                match self.reasoning_idx {
                    Some(i) => self.append_at(i, &text, true),
                    None => {
                        self.items.push(ChatItem::Reasoning { text, collapsed: true });
                        assert(items_view(self.items@) =~= items.push(self.items@.last()@));
                        self.reasoning_idx = Some(self.items.len() - 1);
                    },
                }
            },
            SseEvent::ToolCallDelta { id, name, arguments } => {
                self.assistant_idx = None;
                self.reasoning_idx = None;
                self.pending_tool_id = Some(id.clone());
                self.put_tool_call(id, name, arguments, true);
                self.status = Status::Running;
            },
            SseEvent::ToolCallComplete { id, name, arguments } => {
                self.assistant_idx = None;
                self.reasoning_idx = None;
                self.pending_tool_id = Some(id.clone());
                self.put_tool_call(id, name, arguments, false);
                self.status = Status::Running;
            },
            SseEvent::ToolResult { id, content, denied } => {
                self.assistant_idx = None;
                let decided = if denied {
                    ToolDecision::Denied
                } else {
                    ToolDecision::Approved
                };
                self.put_tool_result(&id, content, Some(decided));
                let clear = match &self.pending_tool_id {
                    Some(p) => *p == id,
                    None => false,
                };
                if clear {
                    self.pending_tool_id = None;
                }
            },
            SseEvent::Metrics { prompt_tokens, completion_tokens, total_tokens } => {
                self.ctx_used = match total_tokens {
                    Some(t) => t,
                    None => match (prompt_tokens, completion_tokens) {
                        (Some(p), Some(c)) => p + c,
                        _ => self.ctx_used,
                    },
                };
            },
            SseEvent::TurnComplete => {
                self.assistant_idx = None;
                self.reasoning_idx = None;
                self.status = Status::Idle;
            },
            SseEvent::Interrupted => {
                self.assistant_idx = None;
                self.reasoning_idx = None;
                self.items.push(ChatItem::Error { text: "Interrupted".to_owned() });
                assert(items_view(self.items@) =~= items.push(self.items@.last()@));
                self.status = Status::Idle;
            },
            SseEvent::StreamClosed => {
                self.status = Status::Idle;
            },
            SseEvent::StreamError { message } => {
                self.items.push(ChatItem::Error { text: message });
                assert(items_view(self.items@) =~= items.push(self.items@.last()@));
                self.status = Status::Idle;
            },
        }
        if self.scroll_from_bottom == 0 {
            self.scroll_to_bottom();
        }
    }

    /// Pins the transcript to its bottom.
    pub fn scroll_to_bottom(&mut self)
        ensures
            final(self).scroll_from_bottom == 0,
            *final(self) == (App { scroll_from_bottom: 0, ..*old(self) }),
    {
        self.scroll_from_bottom = 0;
    }

    /// Scrolls up by `lines`, saturating.
    pub fn scroll_up(&mut self, lines: u16)
        ensures
            final(self).scroll_from_bottom == (if old(self).scroll_from_bottom + lines > u16::MAX {
                u16::MAX as int
            } else {
                old(self).scroll_from_bottom + lines
            }),
            *final(self) == (App { scroll_from_bottom: final(self).scroll_from_bottom, ..*old(self) }),
    {
        self.scroll_from_bottom = self.scroll_from_bottom.saturating_add(lines);
    }

    /// Scrolls down by `lines`, stopping at the bottom.
    pub fn scroll_down(&mut self, lines: u16)
        ensures
            final(self).scroll_from_bottom == (if old(self).scroll_from_bottom < lines {
                0
            } else {
                old(self).scroll_from_bottom - lines
            }),
            *final(self) == (App { scroll_from_bottom: final(self).scroll_from_bottom, ..*old(self) }),
    {
        self.scroll_from_bottom = self.scroll_from_bottom.saturating_sub(lines);
    }
}

/// What the client learns from the server or the network.
pub enum AppEvent {
    SessionsLoaded(Vec<SessionInfo>),
    SessionCreated { session_id: u128, write_token: String, read_token: String, context_window: u64 },
    /// The lines of a session's trace, one JSON record per line.
    SnapshotLines(Vec<String>),
    Sse(SseEvent),
    NetworkError(String),
}

/// The highlight after moving down a list of `len` sessions: the next row,
/// wrapping to the top; nothing moves in an empty list.
pub open spec fn next_selected(selected: Option<usize>, len: nat) -> Option<usize> {
    if len == 0 {
        selected
    } else {
        Some(((match selected {
            Some(i) => i as int,
            None => 0,
        } + 1) % len as int) as usize)
    }
}

/// The highlight after moving up a list of `len` sessions: the row before,
/// wrapping to the bottom; nothing moves in an empty list.
pub open spec fn prev_selected(selected: Option<usize>, len: nat) -> Option<usize> {
    if len == 0 {
        selected
    } else {
        match selected {
            Some(i) if i > 0 => Some((i - 1) as usize),
            _ => Some((len - 1) as usize),
        }
    }
}

/// Moving the highlight down and then up, or up and then down, puts it back
/// on the session it was on.
pub proof fn law_session_moves_undo(i: usize, len: nat)
    requires
        i < len,
        len <= usize::MAX,
    ensures
        prev_selected(next_selected(Some(i), len), len) == Some(i),
        next_selected(prev_selected(Some(i), len), len) == Some(i),
{
    if i + 1 < len {
        assert((i as int + 1) % (len as int) == i + 1) by (nonlinear_arith)
            requires
                0 <= i + 1 < len,
        ;
    } else {
        assert((i as int + 1) % (len as int) == 0) by (nonlinear_arith)
            requires
                i + 1 == len,
                len > 0,
        ;
    }
    if i > 0 {
        assert((i as int - 1 + 1) % (len as int) == i) by (nonlinear_arith)
            requires
                0 <= i < len,
        ;
    } else {
        assert((len as int - 1 + 1) % (len as int) == 0) by (nonlinear_arith)
            requires
                len > 0,
        ;
    }
}

/// The transcript of a fresh chat: empty, nothing streaming, nothing
/// waiting.
pub open spec fn fresh_chat(a: App) -> bool {
    &&& a.items@.len() == 0
    &&& a.pending_tool_id is None
    &&& a.assistant_idx is None
    &&& a.reasoning_idx is None
    &&& a.ctx_used == 0
    &&& a.view == Screen::Chat
}

/// What sending the typed message does: when the trimmed input is not empty,
/// the client is idle and a session is open, the message joins the
/// transcript, the input is cleared, the view goes to the bottom and the
/// client runs; `r` is the session, its write token and the text.
/// Otherwise nothing changes.
pub open spec fn message_sent(old: App, new: App, r: Option<(u128, String, String)>) -> bool {
    let text = trim(old.input@);
    let ok = text.len() > 0 && old.status == Status::Idle && old.session_id is Some && old.write_token is Some;
    &&& (r is Some <==> ok)
    &&& ok ==> {
        &&& r matches Some((sid, token, t))
        &&& Some(sid) == old.session_id
        &&& Some(token) == old.write_token
        &&& t@ == text
        &&& items_view(new.items@) == items_view(old.items@).push(ItemView::User(text))
        &&& new.input@.len() == 0
        &&& new == (App {
            items: new.items,
            input: new.input,
            status: Status::Running,
            assistant_idx: None,
            reasoning_idx: None,
            scroll_from_bottom: 0,
            ..old
        })
    }
    &&& !ok ==> new == old
}

/// What deciding the pending call does: when a call is pending and a session
/// is open, the call's entry is marked approved or denied and nothing is
/// pending any more; `r` is the session, its write token and the call's id.
/// Otherwise nothing changes.
pub open spec fn tool_decided(old: App, approved: bool, new: App, r: Option<(u128, String, String)>) -> bool {
    let ok = old.pending_tool_id is Some && old.session_id is Some && old.write_token is Some;
    &&& (r is Some <==> ok)
    &&& ok ==> {
        let id = old.pending_tool_id->0;
        let items = items_view(old.items@);
        let k = tool_index(items, id@, 0);
        &&& r matches Some((sid, token, tid))
        &&& Some(sid) == old.session_id
        &&& Some(token) == old.write_token
        &&& tid@ == id@
        &&& new == (App { items: new.items, pending_tool_id: None, ..old })
        &&& items_view(new.items@) == (if k < items.len() {
            match items[k] {
                ItemView::Tool { id: i, name, args, result, decision: _, expanded } => items.update(
                    k,
                    ItemView::Tool {
                        id: i,
                        name,
                        args,
                        result,
                        decision: Some(if approved { ToolDecision::Approved } else { ToolDecision::Denied }),
                        expanded,
                    },
                ),
                _ => items,
            }
        } else {
            items
        })
    }
    &&& !ok ==> new == old
}

impl App {
    /// Opens the chat of a listed session, connecting to it.
    pub fn open_session(&mut self, info: &SessionInfo)
        ensures
            fresh_chat(*final(self)),
            final(self).session_id == Some(info.session_id),
            final(self).write_token == Some(info.write_token),
            final(self).read_token == Some(info.read_token),
            final(self).ctx_window == info.context_window,
            final(self).status == Status::Connecting,
            final(self).scroll_from_bottom == 0,
            final(self).sessions == old(self).sessions,
            final(self).selected == old(self).selected,
            final(self).input == old(self).input,
            final(self).should_quit == old(self).should_quit,
            final(self).error_msg == old(self).error_msg,
    {
        self.session_id = Some(info.session_id);
        self.write_token = Some(info.write_token.clone());
        self.read_token = Some(info.read_token.clone());
        self.ctx_window = info.context_window;
        self.ctx_used = 0;
        self.items = Vec::new();
        self.pending_tool_id = None;
        self.status = Status::Connecting;
        self.assistant_idx = None;
        self.reasoning_idx = None;
        self.scroll_from_bottom = 0;
        self.view = Screen::Chat;
    }

    /// Highlights the next session of the list, wrapping around.
    pub fn session_list_next(&mut self)
        ensures
            final(self).selected == next_selected(old(self).selected, old(self).sessions@.len()),
            *final(self) == (App { selected: final(self).selected, ..*old(self) }),
    {
        if self.sessions.len() == 0 {
            return;
        }
        let i = match self.selected {
            Some(i) => i,
            None => 0,
        };
        let n = self.sessions.len();
        proof {
            let m = i as int % n as int;
            assert((i as int + 1) % (n as int) == (m + 1) % (n as int)) by (nonlinear_arith)
                requires
                    n > 0,
                    m == i as int % n as int,
            ;
        }
        self.selected = Some((i % n + 1) % n);
    }

    /// Highlights the previous session of the list, wrapping around.
    pub fn session_list_prev(&mut self)
        ensures
            final(self).selected == prev_selected(old(self).selected, old(self).sessions@.len()),
            *final(self) == (App { selected: final(self).selected, ..*old(self) }),
    {
        if self.sessions.len() == 0 {
            return;
        }
        let i = match self.selected {
            Some(i) => i,
            None => 0,
        };
        self.selected = Some(if i == 0 {
            self.sessions.len() - 1
        } else {
            i - 1
        });
    }

    /// The highlighted session, if the highlight is on one.
    pub fn selected_session(&self) -> (r: Option<&SessionInfo>)
        ensures
            match self.selected {
                Some(i) if i < self.sessions@.len() => r == Some(&self.sessions@[i as int]),
                _ => r is None,
            },
    {
        match self.selected {
            Some(i) => {
                if i < self.sessions.len() {
                    Some(&self.sessions[i])
                } else {
                    None
                }
            },
            None => None,
        }
    }

    /// Sends the input as a message, when there is something to send, the
    /// client is idle and a session is open: the message joins the
    /// transcript and the input is cleared. Returns what to post: the
    /// session, its write token and the text.
    pub fn send_message(&mut self) -> (r: Option<(u128, String, String)>)
        ensures
            message_sent(*old(self), *final(self), r),
    {
        let cs = crate::text::chars_of(self.input.as_str());
        let (lo, hi) = crate::text::trim_bounds(&cs, 0, cs.len());
        assert(cs@.subrange(0, cs@.len() as int) =~= cs@);
        if lo == hi {
            return None;
        }
        if self.status != Status::Idle {
            return None;
        }
        let session_id = match self.session_id {
            Some(id) => id,
            None => {
                return None;
            },
        };
        let write_token = match &self.write_token {
            Some(t) => t.clone(),
            None => {
                return None;
            },
        };
        let text = crate::text::string_of(&cs, lo, hi);
        let ghost before = items_view(self.items@);
        self.items.push(ChatItem::User { text: crate::text::string_of(&cs, lo, hi) });
        assert(items_view(self.items@) =~= before.push(self.items@.last()@));
        self.input = String::new();
        self.status = Status::Running;
        self.assistant_idx = None;
        self.reasoning_idx = None;
        self.scroll_to_bottom();
        Some((session_id, write_token, text))
    }

    /// Decides the pending tool call, marking it in the transcript. Returns
    /// what to post: the session, its write token and the call's id.
    pub fn approve_tool(&mut self, approved: bool) -> (r: Option<(u128, String, String)>)
        ensures
            tool_decided(*old(self), approved, *final(self), r),
    {
        let tool_id = match &self.pending_tool_id {
            Some(id) => id.clone(),
            None => {
                return None;
            },
        };
        let session_id = match self.session_id {
            Some(id) => id,
            None => {
                return None;
            },
        };
        let write_token = match &self.write_token {
            Some(t) => t.clone(),
            None => {
                return None;
            },
        };
        let ghost before = items_view(self.items@);
        let k = find_tool(&self.items, &tool_id);
        if k < self.items.len() {
            let item = self.items.remove(k);
            let updated = match item {
                ChatItem::Tool { id, name, args, result, decision: _, expanded } => ChatItem::Tool {
                    id,
                    name,
                    args,
                    result,
                    decision: Some(if approved {
                        ToolDecision::Approved
                    } else {
                        ToolDecision::Denied
                    }),
                    expanded,
                },
                other => other,
            };
            let ghost new_item = updated@;
            self.items.insert(k, updated);
            assert(items_view(self.items@) =~= before.update(k as int, new_item));
            assert(items_view(self.items@) == (match before[k as int] {
                ItemView::Tool { id: i, name, args, result, decision: _, expanded } => before.update(
                    k as int,
                    ItemView::Tool {
                        id: i,
                        name,
                        args,
                        result,
                        decision: Some(if approved { ToolDecision::Approved } else { ToolDecision::Denied }),
                        expanded,
                    },
                ),
                _ => before,
            }));
        }
        self.pending_tool_id = None;
        Some((session_id, write_token, tool_id))
    }
}

/// What a snapshot has built so far: the transcript, where each tool call
/// of an assistant turn went, and the calls of the most recent block.
pub struct SnapState {
    pub items: Seq<ItemView>,
    pub map: Seq<(Seq<char>, int)>,
    pub last: Seq<Seq<char>>,
}

/// The string under `key` of the object `v`.
pub open spec fn str_at(v: JsonValue, key: Seq<char>) -> Option<Seq<char>> {
    match get_spec(v, key) {
        Some(JsonValue::Str(s)) => Some(s@),
        _ => None,
    }
}

/// The object under `key` of the object `v`.
pub open spec fn obj_at(v: JsonValue, key: Seq<char>) -> Option<JsonValue> {
    match get_spec(v, key) {
        Some(o) => if o is Object { Some(o) } else { None },
        None => None,
    }
}

/// The items of the array under `key` of the object `v`.
pub open spec fn arr_at(v: JsonValue, key: Seq<char>) -> Option<Seq<JsonValue>> {
    match get_spec(v, key) {
        Some(JsonValue::Array(a)) => Some(a@),
        _ => None,
    }
}

/// The text of one piece of a recorded tool result: its `text`, or the
/// `text` inside it.
pub open spec fn piece_text(c: JsonValue) -> Seq<char> {
    match get_spec(c, "text"@) {
        Some(JsonValue::Str(t)) => t@,
        Some(inner) => match str_at(inner, "text"@) {
            Some(t) => t,
            None => seq![],
        },
        None => seq![],
    }
}

/// The texts of the pieces of a recorded tool result, concatenated.
pub open spec fn pieces_text(cs: Seq<JsonValue>) -> Seq<char>
    decreases cs.len(),
{
    if cs.len() == 0 {
        seq![]
    } else {
        pieces_text(cs.drop_last()) + piece_text(cs.last())
    }
}

/// The `text` members of `cs`, concatenated.
pub open spec fn texts_of(cs: Seq<JsonValue>) -> Seq<char>
    decreases cs.len(),
{
    if cs.len() == 0 {
        seq![]
    } else {
        texts_of(cs.drop_last()) + match str_at(cs.last(), "text"@) {
            Some(t) => t,
            None => seq![],
        }
    }
}

/// The transcript with the first tool call `id` given `text` as its result.
pub open spec fn with_result(items: Seq<ItemView>, id: Seq<char>, text: Seq<char>) -> Seq<ItemView> {
    let k = tool_index(items, id, 0);
    if k < items.len() {
        match items[k] {
            ItemView::Tool { id: tid, name, args, result: _, decision, expanded } => items.update(
                k,
                ItemView::Tool { id: tid, name, args, result: Some(text), decision, expanded },
            ),
            _ => items,
        }
    } else {
        items
    }
}

/// The transcript with the first tool call `id` given `d` as its decision,
/// unless it has one.
pub open spec fn with_decision(items: Seq<ItemView>, id: Seq<char>, d: ToolDecision) -> Seq<ItemView> {
    let k = tool_index(items, id, 0);
    if k < items.len() {
        match items[k] {
            ItemView::Tool { id: tid, name, args, result, decision, expanded } => if decision is None {
                items.update(k, ItemView::Tool { id: tid, name, args, result, decision: Some(d), expanded })
            } else {
                items
            },
            _ => items,
        }
    } else {
        items
    }
}

/// The index in `map` of the entry for `id`, or the length of `map`.
pub open spec fn map_pos(map: Seq<(Seq<char>, int)>, id: Seq<char>, i: int) -> int
    decreases map.len() - i,
{
    if i < 0 || i >= map.len() {
        map.len() as int
    } else if map[i].0 == id {
        i
    } else {
        map_pos(map, id, i + 1)
    }
}

/// `map` with `id` now at `idx`.
pub open spec fn map_insert(map: Seq<(Seq<char>, int)>, id: Seq<char>, idx: int) -> Seq<(Seq<char>, int)> {
    let k = map_pos(map, id, 0);
    if k < map.len() {
        map.update(k, (id, idx))
    } else {
        map.push((id, idx))
    }
}

/// `ids` with `id` among them.
pub open spec fn set_insert(ids: Seq<Seq<char>>, id: Seq<char>) -> Seq<Seq<char>> {
    if ids.contains(id) {
        ids
    } else {
        ids.push(id)
    }
}

/// A recorded input item of a snapshot.
pub open spec fn snap_input(s: SnapState, item: JsonValue) -> SnapState {
    let ty = str_at(item, "type"@);
    if ty == Some("text"@) {
        match str_at(item, "text"@) {
            Some(t) => SnapState { items: s.items.push(ItemView::User(t)), ..s },
            None => s,
        }
    } else if ty == Some("tool_result"@) {
        match (str_at(item, "tool_call_id"@), arr_at(item, "content"@)) {
            (Some(id), Some(cs)) => SnapState { items: with_result(s.items, id, pieces_text(cs)), ..s },
            _ => s,
        }
    } else {
        s
    }
}

pub open spec fn snap_inputs(s: SnapState, items: Seq<JsonValue>) -> SnapState
    decreases items.len(),
{
    if items.len() == 0 {
        s
    } else {
        snap_input(snap_inputs(s, items.drop_last()), items.last())
    }
}

/// The arguments of a recorded tool call, as text.
pub open spec fn args_text(args: JsonValue) -> Seq<char> {
    match args {
        JsonValue::Str(x) => x@,
        _ => json_compact(args),
    }
}

/// A recorded tool call of a snapshot.
pub open spec fn snap_call(s: SnapState, tc: JsonValue) -> SnapState {
    match (str_at(tc, "id"@), str_at(tc, "name"@), get_spec(tc, "arguments"@)) {
        (Some(id), Some(name), Some(args)) => SnapState {
            items: s.items.push(ItemView::Tool {
                id,
                name,
                args: args_text(args),
                result: None,
                decision: None,
                expanded: false,
            }),
            map: map_insert(s.map, id, s.items.len() as int),
            last: set_insert(s.last, id),
        },
        _ => s,
    }
}

pub open spec fn snap_calls(s: SnapState, tcs: Seq<JsonValue>) -> SnapState
    decreases tcs.len(),
{
    if tcs.len() == 0 {
        s
    } else {
        snap_call(snap_calls(s, tcs.drop_last()), tcs.last())
    }
}

/// A recorded response of a snapshot: its reasoning, its text and its tool
/// calls, each when present.
pub open spec fn snap_response(s: SnapState, r: JsonValue) -> SnapState {
    let s1 = match str_at(r, "reasoning"@) {
        Some(t) => if t.len() > 0 { SnapState { items: s.items.push(ItemView::Reasoning(t, true)), ..s } } else { s },
        None => s,
    };
    let s2 = match str_at(r, "content"@) {
        Some(t) => if t.len() > 0 { SnapState { items: s1.items.push(ItemView::Assistant(t)), ..s1 } } else { s1 },
        None => s1,
    };
    match arr_at(r, "tool_calls"@) {
        Some(tcs) => snap_calls(s2, tcs),
        None => s2,
    }
}

/// The payload of a recorded outcome: under `completed` if there is such a
/// member, else under `interrupted`; when it is an object.
pub open spec fn outcome_payload(o: JsonValue) -> Option<JsonValue> {
    let v = match get_spec(o, "completed"@) {
        Some(c) => Some(c),
        None => get_spec(o, "interrupted"@),
    };
    match v {
        Some(p) => if p is Object { Some(p) } else { None },
        None => None,
    }
}

/// A recorded assistant turn of a snapshot.
pub open spec fn snap_outcome(s: SnapState, o: JsonValue) -> SnapState {
    match outcome_payload(o) {
        Some(p) => snap_response(s, match obj_at(p, "response"@) {
            Some(r) => r,
            None => p,
        }),
        None => s,
    }
}

/// A turn record of a snapshot.
pub open spec fn snap_turn(s: SnapState, t: JsonValue) -> SnapState {
    match obj_at(t, "input_message"@) {
        Some(m) => {
            let s2 = SnapState { last: seq![], ..s };
            match arr_at(m, "content"@) {
                Some(items) => snap_inputs(s2, items),
                None => s2,
            }
        },
        None => match obj_at(t, "assistant_message"@) {
            Some(a) => {
                let s2 = SnapState { last: seq![], ..s };
                match obj_at(a, "outcome"@) {
                    Some(o) => snap_outcome(s2, o),
                    None => s2,
                }
            },
            None => s,
        },
    }
}

/// The text of a recorded tool outcome: its `content` texts, or else its
/// `error` texts.
pub open spec fn outcome_content(o: JsonValue) -> Seq<char> {
    match arr_at(o, "content"@) {
        Some(cs) => texts_of(cs),
        None => match arr_at(o, "error"@) {
            Some(es) => texts_of(es),
            None => seq![],
        },
    }
}

/// An event record of a snapshot.
pub open spec fn snap_event(s: SnapState, e: JsonValue) -> SnapState {
    match obj_at(e, "tool_call_result"@) {
        Some(r) => {
            let s2 = SnapState { last: seq![], ..s };
            match (str_at(r, "tool_call_id"@), obj_at(r, "outcome"@)) {
                (Some(id), Some(o)) => SnapState { items: with_result(s2.items, id, outcome_content(o)), ..s2 },
                _ => s2,
            }
        },
        None => match obj_at(e, "tool_authorization"@) {
            Some(a) => match (str_at(a, "tool_call_id"@), str_at(a, "decision"@)) {
                (Some(id), Some(d)) => SnapState {
                    items: with_decision(
                        s.items,
                        id,
                        if d == "approved"@ { ToolDecision::Approved } else { ToolDecision::Denied },
                    ),
                    ..s
                },
                _ => s,
            },
            None => s,
        },
    }
}

/// One line of a snapshot.
pub open spec fn snap_line(s: SnapState, line: Seq<char>) -> SnapState {
    match json_parse(line) {
        None => s,
        Some(obj) => {
            let kind = str_at(obj, "kind"@);
            if kind == Some("turn"@) {
                match obj_at(obj, "turn"@) {
                    Some(t) => snap_turn(s, t),
                    None => s,
                }
            } else if kind == Some("event"@) {
                match obj_at(obj, "event"@) {
                    Some(e) => snap_event(s, e),
                    None => s,
                }
            } else {
                s
            }
        },
    }
}

pub open spec fn snap_lines(s: SnapState, lines: Seq<Seq<char>>) -> SnapState
    decreases lines.len(),
{
    if lines.len() == 0 {
        s
    } else {
        snap_line(snap_lines(s, lines.drop_last()), lines.last())
    }
}

/// Whether a snapshot line is passed over: it is not JSON, or its kind is
/// neither a turn nor an event (such as the session's header line).
pub open spec fn skipped_line(line: Seq<char>) -> bool {
    match json_parse(line) {
        None => true,
        Some(obj) => str_at(obj, "kind"@) != Some("turn"@) && str_at(obj, "kind"@) != Some("event"@),
    }
}

/// A line that is passed over, put anywhere among the lines of a snapshot,
/// changes nothing of what the lines build.
pub proof fn lemma_skipped_line_changes_nothing(s: SnapState, before: Seq<Seq<char>>, line: Seq<char>, after: Seq<Seq<char>>)
    requires
        skipped_line(line),
    ensures
        snap_lines(s, before + seq![line] + after) == snap_lines(s, before + after),
    decreases after.len(),
{
    if after.len() == 0 {
        assert((before + seq![line] + after).drop_last() =~= before);
        assert(before + after =~= before);
    } else {
        lemma_skipped_line_changes_nothing(s, before, line, after.drop_last());
        assert((before + seq![line] + after).drop_last() =~= before + seq![line] + after.drop_last());
        assert((before + after).drop_last() =~= before + after.drop_last());
    }
}

/// After the lines: the calls of the last block are pending (the last of
/// them, in the order they were first seen, is the one asked about); the
/// other calls without a decision count as approved.
pub open spec fn settle_items(items: Seq<ItemView>, map: Seq<(Seq<char>, int)>, last: Seq<Seq<char>>) -> Seq<ItemView>
    decreases map.len(),
{
    if map.len() == 0 {
        items
    } else {
        let before = settle_items(items, map.drop_last(), last);
        let (id, idx) = map.last();
        if last.contains(id) || !(0 <= idx < before.len()) {
            before
        } else {
            match before[idx] {
                ItemView::Tool { id: tid, name, args, result, decision, expanded } => if decision is None {
                    before.update(idx, ItemView::Tool { id: tid, name, args, result, decision: Some(ToolDecision::Approved), expanded })
                } else {
                    before
                },
                _ => before,
            }
        }
    }
}

/// The pending call after the lines: the last call of the last block, in
/// the order the calls were first seen; unchanged when the last block has
/// none.
pub open spec fn settle_pending(pending: Option<Seq<char>>, map: Seq<(Seq<char>, int)>, last: Seq<Seq<char>>) -> Option<Seq<char>>
    decreases map.len(),
{
    if map.len() == 0 {
        pending
    } else {
        let before = settle_pending(pending, map.drop_last(), last);
        if last.contains(map.last().0) {
            Some(map.last().0)
        } else {
            before
        }
    }
}

/// The empty state a snapshot starts from.
pub open spec fn snap_start() -> SnapState {
    SnapState { items: seq![], map: seq![], last: seq![] }
}

/// The views of `lines`.
pub open spec fn lines_view(lines: Seq<String>) -> Seq<Seq<char>> {
    lines.map_values(|l: String| l@)
}

/// Whether `s` is `lit`.
fn str_is(s: &str, lit: &str) -> (r: bool)
    ensures
        r == (s@ == lit@),
{
    crate::text::eq_str(&crate::text::chars_of(s), lit)
}

fn str_at_exec<'a>(v: &'a JsonValue, key: &str) -> (r: Option<&'a str>)
    ensures
        match r {
            Some(t) => str_at(*v, key@) == Some(t@),
            None => str_at(*v, key@) is None,
        },
{
    match v.get(key) {
        Some(x) => x.as_str(),
        None => None,
    }
}

fn obj_at_exec<'a>(v: &'a JsonValue, key: &str) -> (r: Option<&'a JsonValue>)
    ensures
        match r {
            Some(o) => obj_at(*v, key@) == Some(*o),
            None => obj_at(*v, key@) is None,
        },
{
    match v.get(key) {
        Some(x) => if x.is_object() {
            Some(x)
        } else {
            None
        },
        None => None,
    }
}

fn arr_at_exec<'a>(v: &'a JsonValue, key: &str) -> (r: Option<&'a Vec<JsonValue>>)
    ensures
        match r {
            Some(a) => arr_at(*v, key@) == Some(a@),
            None => arr_at(*v, key@) is None,
        },
{
    match v.get(key) {
        Some(x) => x.as_array(),
        None => None,
    }
}

fn piece_text_exec(c: &JsonValue) -> (r: String)
    ensures
        r@ == piece_text(*c),
{
    match c.get("text") {
        Some(inner) => match inner.as_str() {
            Some(t) => t.to_owned(),
            None => match str_at_exec(inner, "text") {
                Some(t) => t.to_owned(),
                None => String::new(),
            },
        },
        None => String::new(),
    }
}

fn pieces_text_exec(cs: &Vec<JsonValue>) -> (r: String)
    ensures
        r@ == pieces_text(cs@),
{
    let mut out = String::new();
    let mut i: usize = 0;
    while i < cs.len()
        invariant
            i <= cs.len(),
            out@ == pieces_text(cs@.take(i as int)),
        decreases cs.len() - i,
    {
        assert(cs@.take(i + 1).drop_last() =~= cs@.take(i as int));
        let piece = piece_text_exec(&cs[i]);
        append_str(&mut out, piece.as_str());
        i = i + 1;
    }
    assert(cs@.take(cs.len() as int) =~= cs@);
    out
}

fn texts_of_exec(cs: &Vec<JsonValue>) -> (r: String)
    ensures
        r@ == texts_of(cs@),
{
    let mut out = String::new();
    let mut i: usize = 0;
    while i < cs.len()
        invariant
            i <= cs.len(),
            out@ == texts_of(cs@.take(i as int)),
        decreases cs.len() - i,
    {
        assert(cs@.take(i + 1).drop_last() =~= cs@.take(i as int));
        match str_at_exec(&cs[i], "text") {
            Some(t) => append_str(&mut out, t),
            None => {},
        }
        i = i + 1;
    }
    assert(cs@.take(cs.len() as int) =~= cs@);
    out
}

fn outcome_content_exec(o: &JsonValue) -> (r: String)
    ensures
        r@ == outcome_content(*o),
{
    match arr_at_exec(o, "content") {
        Some(cs) => texts_of_exec(cs),
        None => match arr_at_exec(o, "error") {
            Some(es) => texts_of_exec(es),
            None => String::new(),
        },
    }
}

/// The index of the entry for `key` in `map`, or the length of `map`.
fn find_key(map: &Vec<(String, usize)>, key: &String) -> (r: usize)
    ensures
        r == map_pos(map@.map_values(|e: (String, usize)| (e.0@, e.1 as int)), key@, 0),
{
    let ghost mv = map@.map_values(|e: (String, usize)| (e.0@, e.1 as int));
    let mut p: usize = 0;
    while p < map.len()
        invariant
            p <= map.len(),
            mv == map@.map_values(|e: (String, usize)| (e.0@, e.1 as int)),
            map_pos(mv, key@, 0) == map_pos(mv, key@, p as int),
        decreases map.len() - p,
    {
        assert(mv[p as int] == (map@[p as int].0@, map@[p as int].1 as int));
        if map[p].0 == *key {
            return p;
        }
        p = p + 1;
    }
    p
}

/// A snapshot being read: the transcript, where each tool call went, and
/// the calls of the most recent block.
struct Snapshot {
    items: Vec<ChatItem>,
    map: Vec<(String, usize)>,
    last: Vec<String>,
}

impl Snapshot {
    spec fn state(&self) -> SnapState {
        SnapState {
            items: items_view(self.items@),
            map: self.map@.map_values(|e: (String, usize)| (e.0@, e.1 as int)),
            last: self.last@.map_values(|t: String| t@),
        }
    }

    spec fn indices_fit(&self) -> bool {
        forall|i: int| 0 <= i < self.map@.len() ==> (#[trigger] self.map@[i]).1 < self.items@.len()
    }

    fn clear_last(&mut self)
        ensures
            final(self).state() == (SnapState { last: seq![], ..old(self).state() }),
            final(self).indices_fit() == old(self).indices_fit(),
    {
        self.last = Vec::new();
        assert(self.state().last =~= Seq::<Seq<char>>::empty());
    }

    fn set_result(&mut self, id: &str, text: String)
        requires
            old(self).indices_fit(),
        ensures
            final(self).state() == (SnapState { items: with_result(old(self).state().items, id@, text@), ..old(self).state() }),
            final(self).indices_fit(),
    {
        let ghost before = items_view(self.items@);
        let wanted = id.to_owned();
        let k = find_tool(&self.items, &wanted);
        if k < self.items.len() {
            let item = self.items.remove(k);
            let updated = match item {
                ChatItem::Tool { id: tid, name, args, result: _, decision, expanded } => ChatItem::Tool {
                    id: tid,
                    name,
                    args,
                    result: Some(text),
                    decision,
                    expanded,
                },
                other => other,
            };
            let ghost new_item = updated@;
            self.items.insert(k, updated);
            assert(items_view(self.items@) =~= before.update(k as int, new_item));
        }
        assert(self.state().items == with_result(before, id@, text@));
        assert(self.state().map == old(self).state().map);
        assert(self.state().last == old(self).state().last);
    }

    fn set_decision(&mut self, id: &str, d: ToolDecision)
        requires
            old(self).indices_fit(),
        ensures
            final(self).state() == (SnapState { items: with_decision(old(self).state().items, id@, d), ..old(self).state() }),
            final(self).indices_fit(),
    {
        let ghost before = items_view(self.items@);
        let wanted = id.to_owned();
        let k = find_tool(&self.items, &wanted);
        if k < self.items.len() {
            let item = self.items.remove(k);
            let updated = match item {
                ChatItem::Tool { id: tid, name, args, result, decision, expanded } => {
                    let decision = match decision {
                        Some(x) => Some(x),
                        None => Some(d),
                    };
                    ChatItem::Tool { id: tid, name, args, result, decision, expanded }
                },
                other => other,
            };
            let ghost new_item = updated@;
            self.items.insert(k, updated);
            assert(items_view(self.items@) =~= before.update(k as int, new_item));
            proof {
                if !(before[k as int] matches ItemView::Tool { decision: None, .. }) {
                    assert(new_item == before[k as int]);
                    assert(before.update(k as int, new_item) =~= before);
                }
            }
        }
        assert(self.state().items == with_decision(before, id@, d));
        assert(self.state().map == old(self).state().map);
        assert(self.state().last == old(self).state().last);
    }

    fn input_item(&mut self, item: &JsonValue)
        requires
            old(self).indices_fit(),
        ensures
            final(self).state() == snap_input(old(self).state(), *item),
            final(self).indices_fit(),
    {
        let ty = str_at_exec(item, "type");
        let is_text = match ty {
            Some(t) => str_is(t, "text"),
            None => false,
        };
        let is_result = match ty {
            Some(t) => str_is(t, "tool_result"),
            None => false,
        };
        if is_text {
            match str_at_exec(item, "text") {
                Some(t) => {
                    let ghost before = self.state();
                    self.items.push(ChatItem::User { text: t.to_owned() });
                    assert(self.state().items =~= before.items.push(ItemView::User(t@)));
                },
                None => {},
            }
        } else if is_result {
            match (str_at_exec(item, "tool_call_id"), arr_at_exec(item, "content")) {
                (Some(id), Some(cs)) => {
                    let text = pieces_text_exec(cs);
                    self.set_result(id, text);
                },
                _ => {},
            }
        }
    }

    fn input_items(&mut self, items: &Vec<JsonValue>)
        requires
            old(self).indices_fit(),
        ensures
            final(self).state() == snap_inputs(old(self).state(), items@),
            final(self).indices_fit(),
    {
        let ghost start = self.state();
        let mut i: usize = 0;
        while i < items.len()
            invariant
                i <= items.len(),
                self.indices_fit(),
                self.state() == snap_inputs(start, items@.take(i as int)),
            decreases items.len() - i,
        {
            assert(items@.take(i + 1).drop_last() =~= items@.take(i as int));
            self.input_item(&items[i]);
            i = i + 1;
        }
        assert(items@.take(items.len() as int) =~= items@);
    }

    fn call(&mut self, tc: &JsonValue)
        requires
            old(self).indices_fit(),
        ensures
            final(self).state() == snap_call(old(self).state(), *tc),
            final(self).indices_fit(),
    {
        match (str_at_exec(tc, "id"), str_at_exec(tc, "name"), tc.get("arguments")) {
            (Some(id), Some(name), Some(args)) => {
                let ghost before = self.state();
                let args_str = match args.as_str() {
                    Some(a) => a.to_owned(),
                    None => compact_text(args),
                };
                let idx = self.items.len();
                let key = id.to_owned();
                let p = find_key(&self.map, &key);
                if p < self.map.len() {
                    self.map.set(p, (id.to_owned(), idx));
                } else {
                    self.map.push((id.to_owned(), idx));
                }
                proof {
                    let m = self.map@.map_values(|e: (String, usize)| (e.0@, e.1 as int));
                    assert(m =~= map_insert(before.map, id@, idx as int));
                }
                let mut present = false;
                let mut q: usize = 0;
                while q < self.last.len()
                    invariant
                        q <= self.last.len(),
                        before.last == self.last@.map_values(|t: String| t@),
                        key@ == id@,
                        present == exists|j: int| 0 <= j < q && before.last[j] == id@,
                    decreases self.last.len() - q,
                {
                    assert(before.last[q as int] == self.last@[q as int]@);
                    if self.last[q] == key {
                        present = true;
                    }
                    q = q + 1;
                }
                if !present {
                    self.last.push(id.to_owned());
                }
                proof {
                    let l = self.last@.map_values(|t: String| t@);
                    assert(present == before.last.contains(id@));
                    assert(l =~= set_insert(before.last, id@));
                }
                self.items.push(ChatItem::Tool {
                    id: id.to_owned(),
                    name: name.to_owned(),
                    args: args_str,
                    result: None,
                    decision: None,
                    expanded: false,
                });
                proof {
                    assert(self.state().items =~= before.items.push(ItemView::Tool {
                        id: id@,
                        name: name@,
                        args: args_text(*args),
                        result: None,
                        decision: None,
                        expanded: false,
                    }));
                    assert forall|i: int| 0 <= i < self.map@.len() implies (#[trigger] self.map@[i]).1 < self.items@.len() by {
                        if i < before.map.len() && !(p < before.map.len() && i == p) {
                            assert(self.map@[i].1 as int == before.map[i].1);
                        }
                    }
                }
            },
            _ => {},
        }
    }

    fn calls(&mut self, tcs: &Vec<JsonValue>)
        requires
            old(self).indices_fit(),
        ensures
            final(self).state() == snap_calls(old(self).state(), tcs@),
            final(self).indices_fit(),
    {
        let ghost start = self.state();
        let mut i: usize = 0;
        while i < tcs.len()
            invariant
                i <= tcs.len(),
                self.indices_fit(),
                self.state() == snap_calls(start, tcs@.take(i as int)),
            decreases tcs.len() - i,
        {
            assert(tcs@.take(i + 1).drop_last() =~= tcs@.take(i as int));
            self.call(&tcs[i]);
            i = i + 1;
        }
        assert(tcs@.take(tcs.len() as int) =~= tcs@);
    }

    fn response(&mut self, r: &JsonValue)
        requires
            old(self).indices_fit(),
        ensures
            final(self).state() == snap_response(old(self).state(), *r),
            final(self).indices_fit(),
    {
        let ghost s0 = self.state();
        match str_at_exec(r, "reasoning") {
            Some(t) => {
                if crate::text::chars_of(t).len() > 0 {
                    self.items.push(ChatItem::Reasoning { text: t.to_owned(), collapsed: true });
                    assert(self.state().items =~= s0.items.push(ItemView::Reasoning(t@, true)));
                }
            },
            None => {},
        }
        let ghost s1 = self.state();
        match str_at_exec(r, "content") {
            Some(t) => {
                if crate::text::chars_of(t).len() > 0 {
                    self.items.push(ChatItem::Assistant { text: t.to_owned() });
                    assert(self.state().items =~= s1.items.push(ItemView::Assistant(t@)));
                }
            },
            None => {},
        }
        proof {
            assert forall|i: int| 0 <= i < self.map@.len() implies (#[trigger] self.map@[i]).1 < self.items@.len() by {}
        }
        match arr_at_exec(r, "tool_calls") {
            Some(tcs) => self.calls(tcs),
            None => {},
        }
    }

    fn outcome(&mut self, o: &JsonValue)
        requires
            old(self).indices_fit(),
        ensures
            final(self).state() == snap_outcome(old(self).state(), *o),
            final(self).indices_fit(),
    {
        let v = match o.get("completed") {
            Some(c) => Some(c),
            None => o.get("interrupted"),
        };
        let payload = match v {
            Some(p) => if p.is_object() {
                Some(p)
            } else {
                None
            },
            None => None,
        };
        match payload {
            Some(p) => {
                let response = match obj_at_exec(p, "response") {
                    Some(r) => r,
                    None => p,
                };
                self.response(response);
            },
            None => {},
        }
    }

    fn turn(&mut self, t: &JsonValue)
        requires
            old(self).indices_fit(),
        ensures
            final(self).state() == snap_turn(old(self).state(), *t),
            final(self).indices_fit(),
    {
        match obj_at_exec(t, "input_message") {
            Some(m) => {
                self.clear_last();
                match arr_at_exec(m, "content") {
                    Some(items) => self.input_items(items),
                    None => {},
                }
            },
            None => match obj_at_exec(t, "assistant_message") {
                Some(a) => {
                    self.clear_last();
                    match obj_at_exec(a, "outcome") {
                        Some(o) => self.outcome(o),
                        None => {},
                    }
                },
                None => {},
            },
        }
    }

    fn event(&mut self, e: &JsonValue)
        requires
            old(self).indices_fit(),
        ensures
            final(self).state() == snap_event(old(self).state(), *e),
            final(self).indices_fit(),
    {
        match obj_at_exec(e, "tool_call_result") {
            Some(r) => {
                self.clear_last();
                match (str_at_exec(r, "tool_call_id"), obj_at_exec(r, "outcome")) {
                    (Some(id), Some(o)) => {
                        let content = outcome_content_exec(o);
                        self.set_result(id, content);
                    },
                    _ => {},
                }
            },
            None => match obj_at_exec(e, "tool_authorization") {
                Some(a) => match (str_at_exec(a, "tool_call_id"), str_at_exec(a, "decision")) {
                    (Some(id), Some(d)) => {
                        let decision = if str_is(d, "approved") {
                            ToolDecision::Approved
                        } else {
                            ToolDecision::Denied
                        };
                        self.set_decision(id, decision);
                    },
                    _ => {},
                },
                None => {},
            },
        }
    }

    fn line(&mut self, line: &String)
        requires
            old(self).indices_fit(),
        ensures
            final(self).state() == snap_line(old(self).state(), line@),
            final(self).indices_fit(),
    {
        let obj = match parse_json(line.as_str()) {
            Some(v) => v,
            None => {
                return;
            },
        };
        let kind = str_at_exec(&obj, "kind");
        let is_turn = match kind {
            Some(k) => str_is(k, "turn"),
            None => false,
        };
        let is_event = match kind {
            Some(k) => str_is(k, "event"),
            None => false,
        };
        if is_turn {
            match obj_at_exec(&obj, "turn") {
                Some(t) => self.turn(t),
                None => {},
            }
        } else if is_event {
            match obj_at_exec(&obj, "event") {
                Some(e) => self.event(e),
                None => {},
            }
        }
    }
}

/// What loading a snapshot does to the client: the transcript is rebuilt
/// from the lines, and the calls of the last block wait for a decision.
pub open spec fn snapshot_applied(old: App, lines: Seq<Seq<char>>, new: App) -> bool {
    let st = snap_lines(snap_start(), lines);
    &&& items_view(new.items@) == settle_items(st.items, st.map, st.last)
    &&& opt_view(new.pending_tool_id) == settle_pending(opt_view(old.pending_tool_id), st.map, st.last)
    &&& new.assistant_idx is None && new.reasoning_idx is None
    &&& new.scroll_from_bottom == 0
    &&& new.status == old.status
    &&& new.ctx_used == old.ctx_used
    &&& new.view == old.view
    &&& new.should_quit == old.should_quit
    &&& new.sessions == old.sessions
    &&& new.selected == old.selected
    &&& new.session_id == old.session_id
    &&& new.write_token == old.write_token
    &&& new.read_token == old.read_token
    &&& new.ctx_window == old.ctx_window
    &&& new.input == old.input
    &&& new.error_msg == old.error_msg
}

/// Loading a snapshot with a passed-over line put anywhere among its lines
/// leaves the client as loading it without that line does.
pub proof fn lemma_snapshot_skips_line(old: App, before: Seq<Seq<char>>, line: Seq<char>, after: Seq<Seq<char>>, new: App)
    requires
        skipped_line(line),
    ensures
        snapshot_applied(old, before + seq![line] + after, new) == snapshot_applied(old, before + after, new),
{
    lemma_skipped_line_changes_nothing(snap_start(), before, line, after);
}

impl App {
    /// Rebuilds the transcript from the lines of a session's trace, one JSON
    /// record per line: input turns give the user's messages and fill in
    /// tool results, assistant turns give reasoning, text and tool calls,
    /// and events fill in results and decisions. Lines that are not JSON are
    /// skipped. The calls of the last block wait for a decision; the others
    /// without one count as approved.
    pub fn apply_snapshot_lines(&mut self, lines: &Vec<String>)
        ensures
            snapshot_applied(*old(self), lines_view(lines@), *final(self)),
    {
        let mut snap = Snapshot { items: Vec::new(), map: Vec::new(), last: Vec::new() };
        proof {
            assert(snap.state().items =~= Seq::<ItemView>::empty());
            assert(snap.state().map =~= Seq::<(Seq<char>, int)>::empty());
            assert(snap.state().last =~= Seq::<Seq<char>>::empty());
        }
        let ghost lv = lines_view(lines@);
        let mut i: usize = 0;
        while i < lines.len()
            invariant
                i <= lines.len(),
                lv == lines_view(lines@),
                snap.indices_fit(),
                snap.state() == snap_lines(snap_start(), lv.take(i as int)),
            decreases lines.len() - i,
        {
            assert(lv.take(i + 1).drop_last() =~= lv.take(i as int));
            assert(lv.take(i + 1).last() == lines@[i as int]@);
            snap.line(&lines[i]);
            i = i + 1;
        }
        assert(lv.take(lines.len() as int) =~= lv);
        let ghost st = snap.state();
        let Snapshot { items, map, last } = snap;
        let mut items = items;
        let ghost mv = map@.map_values(|e: (String, usize)| (e.0@, e.1 as int));
        let ghost lastv = last@.map_values(|t: String| t@);
        let mut j: usize = 0;
        while j < map.len()
            invariant
                j <= map.len(),
                mv == map@.map_values(|e: (String, usize)| (e.0@, e.1 as int)),
                lastv == last@.map_values(|t: String| t@),
                st.map == mv,
                st.last == lastv,
                items@.len() == st.items.len(),
                forall|k: int| 0 <= k < map@.len() ==> (#[trigger] map@[k]).1 < st.items.len(),
                items_view(items@) == settle_items(st.items, mv.take(j as int), lastv),
                opt_view(self.pending_tool_id) == settle_pending(
                    opt_view(old(self).pending_tool_id),
                    mv.take(j as int),
                    lastv,
                ),
                self.items == old(self).items,
                self.assistant_idx == old(self).assistant_idx,
                self.scroll_from_bottom == old(self).scroll_from_bottom,
                self.status == old(self).status,
                self.ctx_used == old(self).ctx_used,
                same_session(*old(self), *self),
            decreases map.len() - j,
        {
            assert(mv.take(j + 1).drop_last() =~= mv.take(j as int));
            assert(mv.take(j + 1).last() == mv[j as int]);
            assert(mv[j as int] == (map@[j as int].0@, map@[j as int].1 as int));
            let mut in_last = false;
            let mut q: usize = 0;
            while q < last.len()
                invariant
                    q <= last.len(),
                    j < map.len(),
                    lastv == last@.map_values(|t: String| t@),
                    in_last == exists|x: int| 0 <= x < q && lastv[x] == map@[j as int].0@,
                decreases last.len() - q,
            {
                assert(lastv[q as int] == last@[q as int]@);
                if last[q] == map[j].0 {
                    in_last = true;
                }
                q = q + 1;
            }
            assert(in_last == lastv.contains(mv[j as int].0));
            if in_last {
                self.pending_tool_id = Some(map[j].0.clone());
            } else {
                let idx = map[j].1;
                let ghost before = items_view(items@);
                let item = items.remove(idx);
                let updated = match item {
                    ChatItem::Tool { id, name, args, result, decision, expanded } => {
                        let decision = match decision {
                            Some(x) => Some(x),
                            None => Some(ToolDecision::Approved),
                        };
                        ChatItem::Tool { id, name, args, result, decision, expanded }
                    },
                    other => other,
                };
                let ghost new_item = updated@;
                items.insert(idx, updated);
                assert(items_view(items@) =~= before.update(idx as int, new_item));
                proof {
                    if !(before[idx as int] matches ItemView::Tool { decision: None, .. }) {
                        assert(new_item == before[idx as int]);
                        assert(before.update(idx as int, new_item) =~= before);
                    }
                }
            }
            j = j + 1;
        }
        assert(mv.take(map.len() as int) =~= mv);
        self.items = items;
        self.assistant_idx = None;
        self.reasoning_idx = None;
        self.scroll_to_bottom();
    }

    /// Takes an event from the server or the network.
    pub fn handle_app_event(&mut self, event: AppEvent)
        requires
            event matches AppEvent::Sse(ev) ==> sse_fits(ev),
        ensures
            match event {
                AppEvent::SessionsLoaded(sessions) => *final(self) == (App {
                    sessions,
                    selected: if sessions@.len() == 0 { None } else { Some(0usize) },
                    ..*old(self)
                }),
                AppEvent::SessionCreated { session_id, write_token, read_token, context_window } => {
                    &&& fresh_chat(*final(self))
                    &&& final(self).session_id == Some(session_id)
                    &&& final(self).write_token == Some(write_token)
                    &&& final(self).read_token == Some(read_token)
                    &&& final(self).ctx_window == context_window
                    &&& final(self).status == Status::Idle
                    &&& final(self).sessions == old(self).sessions
                    &&& final(self).selected == old(self).selected
                    &&& final(self).input == old(self).input
                    &&& final(self).scroll_from_bottom == old(self).scroll_from_bottom
                    &&& final(self).error_msg == old(self).error_msg
                    &&& final(self).should_quit == old(self).should_quit
                },
                AppEvent::SnapshotLines(lines) => {
                    let mid = App { status: old(self).status, ..*final(self) };
                    &&& snapshot_applied(*old(self), lines_view(lines@), mid)
                    &&& final(self).status == (if final(self).pending_tool_id is None {
                        Status::Idle
                    } else {
                        old(self).status
                    })
                },
                AppEvent::Sse(ev) => sse_step(*old(self), ev, *final(self)),
                AppEvent::NetworkError(msg) => *final(self) == (App {
                    error_msg: Some(msg),
                    status: Status::Idle,
                    ..*old(self)
                }),
            },
    {
        match event {
            AppEvent::SessionsLoaded(sessions) => {
                let empty = sessions.len() == 0;
                self.sessions = sessions;
                self.selected = if empty {
                    None
                } else {
                    Some(0)
                };
            },
            AppEvent::SessionCreated { session_id, write_token, read_token, context_window } => {
                self.session_id = Some(session_id);
                self.write_token = Some(write_token);
                self.read_token = Some(read_token);
                self.ctx_window = context_window;
                self.ctx_used = 0;
                self.items = Vec::new();
                self.pending_tool_id = None;
                self.status = Status::Idle;
                self.assistant_idx = None;
                self.reasoning_idx = None;
                self.view = Screen::Chat;
            },
            AppEvent::SnapshotLines(lines) => {
                self.apply_snapshot_lines(&lines);
                if self.pending_tool_id.is_none() {
                    self.status = Status::Idle;
                }
            },
            AppEvent::Sse(sse) => self.handle_sse(sse),
            AppEvent::NetworkError(msg) => {
                self.error_msg = Some(msg);
                self.status = Status::Idle;
            },
        }
    }
}

} // verus!
