//! What the client's keys do. The host reads the terminal and hands each key
//! press here; it gets back what it has to do on the network.

use vstd::prelude::*;
use crate::chat::{App, ItemView, Screen, items_view, message_sent, next_selected, prev_selected, tool_decided};
use crate::command::{Command, help_text, parse, spec_help_text, spec_parse};
use crate::completion::{Completion, next_row, prev_row, spec_matches};
use crate::text::{append_str, chars_of, opt_view, push_char, string_of};
use crate::tui::{ChatItem, SessionInfo};

verus! {

/// A key press, as the client tells keys apart.
#[derive(Debug, Clone, Copy, PartialEq, Eq, Structural)]
pub enum Key {
    /// A character key; `ctrl` when Control was held.
    Char { c: char, ctrl: bool },
    Enter,
    Esc,
    Tab,
    Backspace,
    Up,
    Down,
    PageUp,
    PageDown,
    /// End; `ctrl` when Control was held.
    End { ctrl: bool },
    /// Any other key.
    Other,
}

/// What the host has to do after a key press.
#[derive(Debug)]
pub enum KeyAction {
    Nothing,
    /// Reload the list of sessions.
    RefreshSessions,
    /// Create a session, on `model` when one is named.
    CreateSession { model: Option<String> },
    /// Load the session's history, then follow its events.
    OpenStream { session_id: u128, token: String },
    /// Post the user's message.
    SendInput { session_id: u128, token: String, text: String },
    /// Post the user's decision on a tool call.
    RespondTool { session_id: u128, token: String, tool_call_id: String, approved: bool },
}

/// The popup's state, as values: the highlighted row and whether it was
/// dismissed.
pub open spec fn popup(c: Completion) -> (nat, bool) {
    (c.selected_row(), c.is_dismissed())
}

/// Whether the popup shows for `input`.
pub open spec fn popup_open(c: Completion, input: Seq<char>) -> bool {
    spec_matches(c.is_dismissed(), input).len() > 0
}

/// What the highlighted command turns the input into, if the popup shows.
pub open spec fn accepted(c: Completion, input: Seq<char>) -> Option<Seq<char>> {
    let ms = spec_matches(c.is_dismissed(), input);
    if ms.len() == 0 {
        None
    } else {
        let i = crate::completion::clamp_selected(c.selected_row(), ms.len());
        Some(if ms[i as int].2 { ms[i as int].0 + " "@ } else { ms[i as int].0 })
    }
}

/// `new` is `old` with `item` added to the transcript and the view at the
/// bottom.
pub open spec fn item_pushed(old: App, new: App, item: ItemView) -> bool {
    &&& items_view(new.items@) == items_view(old.items@).push(item)
    &&& new == (App { items: new.items, scroll_from_bottom: 0, ..old })
}

/// The model of the open session, as the session list has it.
pub open spec fn current_model(app: App) -> Seq<char> {
    let k = choose|k: int| 0 <= k < app.sessions@.len() && Some(app.sessions@[k].session_id) == app.session_id
        && forall|j: int| 0 <= j < k ==> Some(#[trigger] app.sessions@[j].session_id) != app.session_id;
    if exists|k: int| 0 <= k < app.sessions@.len() && Some(#[trigger] app.sessions@[k].session_id) == app.session_id {
        app.sessions@[k].model@
    } else {
        "unknown"@
    }
}

/// The notice that a session is being started.
pub open spec fn starting_notice(model: Option<Seq<char>>) -> Seq<char> {
    match model {
        Some(m) => "Starting a new session on "@ + m + "\u{2026}"@,
        None => "Starting a new session\u{2026}"@,
    }
}

/// The notice for `/model` on its own.
pub open spec fn model_notice(current: Seq<char>) -> Seq<char> {
    "Model: "@ + current
        + "\n\n`/model <name>` starts a *new* session \u{2014} a running session's model can't be changed."@
}

/// What running a slash command does.
pub open spec fn command_run(old: App, cmd: Command, new: App, action: KeyAction) -> bool {
    match cmd {
        Command::New { model } => item_pushed(old, new, ItemView::Assistant(starting_notice(opt_view(model))))
            && action == (KeyAction::CreateSession { model }),
        Command::Model { name } => match name {
            Some(m) => item_pushed(old, new, ItemView::Assistant(starting_notice(Some(m@))))
                && action == (KeyAction::CreateSession { model: Some(m) }),
            None => item_pushed(old, new, ItemView::Assistant(model_notice(current_model(old))))
                && action is Nothing,
        },
        Command::Sessions => new == (App { view: Screen::SessionList, ..old }) && action is RefreshSessions,
        Command::Help => item_pushed(old, new, ItemView::Assistant(spec_help_text())) && action is Nothing,
        Command::Quit => new == (App { should_quit: true, ..old }) && action is Nothing,
        Command::Unknown { name } => item_pushed(
            old,
            new,
            ItemView::Error("Unknown command: /"@ + name@ + " \u{2014} try /help"@),
        ) && action is Nothing,
    }
}

/// Whether `key` answers a pending call: y, n, a or d.
pub open spec fn decision_key(key: Key) -> Option<bool> {
    match key {
        Key::Char { c, .. } => if c == 'y' || c == 'a' {
            Some(true)
        } else if c == 'n' || c == 'd' {
            Some(false)
        } else {
            None
        },
        _ => None,
    }
}

/// The input after `c` is typed: `c` at its end.
pub open spec fn typed(input: Seq<char>, c: char) -> Seq<char> {
    input.push(c)
}

/// What a key does in the session list.
pub open spec fn list_key_step(old: App, key: Key, new: App, action: KeyAction) -> bool {
    match key {
        Key::Char { c: 'q', .. } | Key::Char { c: 'c', ctrl: true } => new == (App { should_quit: true, ..old })
            && action is Nothing,
        Key::Down | Key::Char { c: 'j', .. } => new == (App {
            selected: next_selected(old.selected, old.sessions@.len()),
            ..old
        }) && action is Nothing,
        Key::Up | Key::Char { c: 'k', .. } => new == (App {
            selected: prev_selected(old.selected, old.sessions@.len()),
            ..old
        }) && action is Nothing,
        Key::Enter => match old.selected {
            Some(i) if i < old.sessions@.len() => {
                let info = old.sessions@[i as int];
                &&& new.session_id == Some(info.session_id)
                &&& new.write_token == Some(info.write_token)
                &&& new.read_token == Some(info.read_token)
                &&& new.ctx_window == info.context_window
                &&& new.view == Screen::Chat
                &&& new.items@.len() == 0
                &&& new.sessions == old.sessions
                &&& new.input == old.input
                &&& action == (KeyAction::OpenStream { session_id: info.session_id, token: info.read_token })
            },
            _ => new == old && action is Nothing,
        },
        Key::Char { c: 'n', .. } => new == old && action == (KeyAction::CreateSession { model: None }),
        _ => new == old && action is Nothing,
    }
}

/// The action for what `approve_tool` returned.
pub open spec fn respond_spec(r: Option<(u128, String, String)>, approved: bool) -> KeyAction {
    match r {
        Some((sid, token, id)) => KeyAction::RespondTool { session_id: sid, token, tool_call_id: id, approved },
        None => KeyAction::Nothing,
    }
}

/// The action for what `send_message` returned.
pub open spec fn send_spec(r: Option<(u128, String, String)>) -> KeyAction {
    match r {
        Some((sid, token, text)) => KeyAction::SendInput { session_id: sid, token, text },
        None => KeyAction::Nothing,
    }
}

/// The scroll offset after scrolling up `n` rows.
pub open spec fn scrolled_up(s: u16, n: u16) -> u16 {
    if s + n > u16::MAX { u16::MAX } else { (s + n) as u16 }
}

/// The scroll offset after scrolling down `n` rows.
pub open spec fn scrolled_down(s: u16, n: u16) -> u16 {
    if s < n { 0 } else { (s - n) as u16 }
}

/// What Enter does once the popup's choice, if it showed, is in the input:
/// nothing while a call waits for a decision; a slash command runs, and
/// anything else is sent as a message.
pub open spec fn enter_step(mid: App, new: App, action: KeyAction) -> bool {
    if mid.pending_tool_id is Some {
        new == mid && action is Nothing
    } else {
        match spec_parse(mid.input@) {
            Some(cv) => exists|cmd: Command, cleared: App| #[trigger] command_run(cleared, cmd, new, action)
                && cmd@ == cv && cleared == (App { input: cleared.input, ..mid }) && cleared.input@.len() == 0,
            None => exists|r: Option<(u128, String, String)>| #[trigger] message_sent(mid, new, r)
                && action == send_spec(r),
        }
    }
}

/// What a key does in the chat (the popup is `oc` before and `nc` after).
pub open spec fn chat_key_step(old: App, oc: Completion, key: Key, new: App, nc: Completion, action: KeyAction) -> bool {
    let open = popup_open(oc, old.input@);
    let count = spec_matches(oc.is_dismissed(), old.input@).len();
    let pending = old.pending_tool_id is Some;
    let same_popup = popup(nc) == popup(oc);
    match key {
        Key::Char { c: 'q', ctrl: true } | Key::Char { c: 'c', ctrl: true } => new == (App { should_quit: true, ..old })
            && same_popup && action is Nothing,
        Key::Up if open => new == old && popup(nc) == (prev_row(oc.selected_row(), count), oc.is_dismissed())
            && action is Nothing,
        Key::Down if open => new == old && popup(nc) == (next_row(oc.selected_row(), count), oc.is_dismissed())
            && action is Nothing,
        Key::Tab if open => new == (App { input: new.input, ..old }) && accepted(oc, old.input@) == Some(new.input@)
            && popup(nc) == (0nat, false) && action is Nothing,
        Key::Esc if open => new == old && popup(nc) == (oc.selected_row(), true) && action is Nothing,
        Key::Esc => new == (App { view: Screen::SessionList, ..old }) && same_popup && action is RefreshSessions,
        Key::Up => new == (App { scroll_from_bottom: scrolled_up(old.scroll_from_bottom, 3), ..old }) && same_popup
            && action is Nothing,
        Key::Down => new == (App { scroll_from_bottom: scrolled_down(old.scroll_from_bottom, 3), ..old })
            && same_popup && action is Nothing,
        Key::PageUp => new == (App { scroll_from_bottom: scrolled_up(old.scroll_from_bottom, 20), ..old })
            && same_popup && action is Nothing,
        Key::PageDown => new == (App { scroll_from_bottom: scrolled_down(old.scroll_from_bottom, 20), ..old })
            && same_popup && action is Nothing,
        Key::End { ctrl: true } => new == (App { scroll_from_bottom: 0, ..old }) && same_popup && action is Nothing,
        Key::Char { c, .. } => if pending {
            same_popup && match decision_key(key) {
                Some(approved) => exists|r: Option<(u128, String, String)>| #[trigger] tool_decided(old, approved, new, r)
                    && action == respond_spec(r, approved),
                None => new == old && action is Nothing,
            }
        } else {
            new == (App { input: new.input, ..old }) && new.input@ == old.input@.push(c) && popup(nc) == (0nat, false)
                && action is Nothing
        },
        Key::Backspace => new == (App { input: new.input, ..old }) && new.input@ == (if old.input@.len() > 0 {
            old.input@.drop_last()
        } else {
            old.input@
        }) && popup(nc) == (0nat, false) && action is Nothing,
        Key::Enter => {
            let input = match accepted(oc, old.input@) {
                Some(t) => t,
                None => old.input@,
            };
            popup(nc) == (0nat, false) && exists|mid: App| #[trigger] enter_step(mid, new, action)
                && mid == (App { input: mid.input, ..old }) && mid.input@ == input
        },
        _ => new == old && same_popup && action is Nothing,
    }
}

impl KeyAction {
    /// The action for an answer posted by `approve_tool`.
    fn respond(r: Option<(u128, String, String)>, approved: bool) -> (a: KeyAction)
        ensures
            match r {
                Some((sid, token, id)) => a == (KeyAction::RespondTool {
                    session_id: sid,
                    token,
                    tool_call_id: id,
                    approved,
                }),
                None => a is Nothing,
            },
    {
        match r {
            Some((sid, token, id)) => KeyAction::RespondTool { session_id: sid, token, tool_call_id: id, approved },
            None => KeyAction::Nothing,
        }
    }
}

/// Adds `item` to the transcript and pins the view to the bottom.
fn push_item(app: &mut App, item: ChatItem)
    ensures
        item_pushed(*old(app), *final(app), item@),
{
    let ghost before = items_view(app.items@);
    app.items.push(item);
    assert(items_view(app.items@) =~= before.push(item@));
    app.scroll_to_bottom();
}

/// The notice that a session is being started.
fn starting(model: &Option<String>) -> (r: String)
    ensures
        r@ == starting_notice(opt_view(*model)),
{
    let mut s = String::new();
    match model {
        Some(m) => {
            append_str(&mut s, "Starting a new session on ");
            append_str(&mut s, m.as_str());
            append_str(&mut s, "\u{2026}");
        },
        None => append_str(&mut s, "Starting a new session\u{2026}"),
    }
    s
}

/// The model of the open session, as the session list has it.
fn find_model(app: &App) -> (r: String)
    ensures
        r@ == current_model(*app),
{
    let mut k: usize = 0;
    while k < app.sessions.len()
        invariant
            k <= app.sessions.len(),
            forall|j: int| 0 <= j < k ==> Some(#[trigger] app.sessions@[j].session_id) != app.session_id,
        decreases app.sessions.len() - k,
    {
        if Some(app.sessions[k].session_id) == app.session_id {
            proof {
                let w = choose|w: int| 0 <= w < app.sessions@.len() && Some(app.sessions@[w].session_id) == app.session_id
                    && forall|j: int| 0 <= j < w ==> Some(#[trigger] app.sessions@[j].session_id) != app.session_id;
                assert(0 <= k < app.sessions@.len() && Some(app.sessions@[k as int].session_id) == app.session_id
                    && forall|j: int| 0 <= j < k ==> Some(#[trigger] app.sessions@[j].session_id) != app.session_id);
                if w < k {
                    assert(Some(app.sessions@[w].session_id) != app.session_id);
                } else if w > k {
                    assert(Some(app.sessions@[k as int].session_id) != app.session_id);
                }
            }
            return app.sessions[k].model.clone();
        }
        k = k + 1;
    }
    "unknown".to_owned()
}

/// Runs a slash command (see `command_run`). Commands act on the client or
/// the server and never reach the model.
pub fn run_command(app: &mut App, cmd: Command) -> (r: KeyAction)
    ensures
        command_run(*old(app), cmd, *final(app), r),
{
    match cmd {
        Command::New { model } => {
            push_item(app, ChatItem::Assistant { text: starting(&model) });
            KeyAction::CreateSession { model }
        },
        Command::Model { name } => match name {
            Some(m) => {
                let some = Some(m);
                push_item(app, ChatItem::Assistant { text: starting(&some) });
                KeyAction::CreateSession { model: some }
            },
            None => {
                let current = find_model(app);
                let mut s = String::new();
                append_str(&mut s, "Model: ");
                append_str(&mut s, current.as_str());
                append_str(
                    &mut s,
                    "\n\n`/model <name>` starts a *new* session \u{2014} a running session's model can't be changed.",
                );
                push_item(app, ChatItem::Assistant { text: s });
                KeyAction::Nothing
            },
        },
        Command::Sessions => {
            app.view = Screen::SessionList;
            KeyAction::RefreshSessions
        },
        Command::Help => {
            push_item(app, ChatItem::Assistant { text: help_text() });
            KeyAction::Nothing
        },
        Command::Quit => {
            app.should_quit = true;
            KeyAction::Nothing
        },
        Command::Unknown { name } => {
            let mut s = String::new();
            append_str(&mut s, "Unknown command: /");
            append_str(&mut s, name.as_str());
            append_str(&mut s, " \u{2014} try /help");
            push_item(app, ChatItem::Error { text: s });
            KeyAction::Nothing
        },
    }
}

/// Handles a key in the session list (see `list_key_step`).
pub fn handle_session_list_key(app: &mut App, key: Key) -> (r: KeyAction)
    ensures
        list_key_step(*old(app), key, *final(app), r),
{
    match key {
        Key::Char { c: 'q', .. } | Key::Char { c: 'c', ctrl: true } => {
            app.should_quit = true;
            KeyAction::Nothing
        },
        Key::Down | Key::Char { c: 'j', .. } => {
            app.session_list_next();
            KeyAction::Nothing
        },
        Key::Up | Key::Char { c: 'k', .. } => {
            app.session_list_prev();
            KeyAction::Nothing
        },
        Key::Enter => {
            let info: Option<SessionInfo> = match app.selected_session() {
                Some(i) => Some(i.clone()),
                None => None,
            };
            match info {
                Some(info) => {
                    app.open_session(&info);
                    KeyAction::OpenStream { session_id: info.session_id, token: info.read_token }
                },
                None => KeyAction::Nothing,
            }
        },
        Key::Char { c: 'n', .. } => KeyAction::CreateSession { model: None },
        _ => KeyAction::Nothing,
    }
}

/// Handles a key in the chat (see `chat_key_step`).
#[verifier::rlimit(40)]
pub fn handle_chat_key(app: &mut App, completion: &mut Completion, key: Key) -> (r: KeyAction)
    ensures
        chat_key_step(*old(app), *old(completion), key, *final(app), *final(completion), r),
{
    let open = completion.is_open(app.input.as_str());
    let pending = app.pending_tool_id.is_some();
    match key {
        Key::Char { c: 'q', ctrl: true } | Key::Char { c: 'c', ctrl: true } => {
            app.should_quit = true;
            KeyAction::Nothing
        },
        Key::Up if open => {
            completion.prev(app.input.as_str());
            KeyAction::Nothing
        },
        Key::Down if open => {
            completion.next(app.input.as_str());
            KeyAction::Nothing
        },
        Key::Tab if open => {
            match completion.accept(app.input.as_str()) {
                Some(text) => app.input = text,
                None => {},
            }
            completion.reset();
            KeyAction::Nothing
        },
        Key::Esc if open => {
            completion.dismiss();
            KeyAction::Nothing
        },
        Key::Esc => {
            app.view = Screen::SessionList;
            KeyAction::RefreshSessions
        },
        Key::Up => {
            app.scroll_up(3);
            KeyAction::Nothing
        },
        Key::Down => {
            app.scroll_down(3);
            KeyAction::Nothing
        },
        Key::PageUp => {
            app.scroll_up(20);
            KeyAction::Nothing
        },
        Key::PageDown => {
            app.scroll_down(20);
            KeyAction::Nothing
        },
        Key::End { ctrl: true } => {
            app.scroll_to_bottom();
            KeyAction::Nothing
        },
        Key::Char { c, ctrl: _ } => {
            if pending {
                if c == 'y' || c == 'a' {
                    let r = app.approve_tool(true);
                    KeyAction::respond(r, true)
                } else if c == 'n' || c == 'd' {
                    let r = app.approve_tool(false);
                    KeyAction::respond(r, false)
                } else {
                    KeyAction::Nothing
                }
            } else {
                push_char(&mut app.input, c);
                completion.reset();
                KeyAction::Nothing
            }
        },
        Key::Backspace => {
            let cs = chars_of(app.input.as_str());
            if cs.len() > 0 {
                app.input = string_of(&cs, 0, cs.len() - 1);
                assert(cs@.subrange(0, cs.len() - 1) =~= cs@.drop_last());
            }
            completion.reset();
            KeyAction::Nothing
        },
        Key::Enter => {
            let ghost old_app = *app;
            let ghost oc = *completion;
            if open {
                match completion.accept(app.input.as_str()) {
                    Some(text) => app.input = text,
                    None => {},
                }
            }
            completion.reset();
            let ghost mid = *app;
            assert(mid == (App { input: mid.input, ..old_app }));
            assert(mid.input@ == match accepted(oc, old_app.input@) {
                Some(t) => t,
                None => old_app.input@,
            });
            if pending {
                assert(enter_step(mid, *app, KeyAction::Nothing));
                return KeyAction::Nothing;
            }
            match parse(app.input.as_str()) {
                Some(cmd) => {
                    app.input = String::new();
                    let ghost cleared = *app;
                    let ghost c = cmd;
                    let r = run_command(app, cmd);
                    assert(command_run(cleared, c, *app, r));
                    assert(cleared == (App { input: cleared.input, ..mid }) && cleared.input@.len() == 0);
                    assert(enter_step(mid, *app, r));
                    r
                },
                None => {
                    let sent = app.send_message();
                    let r = match sent {
                        Some((sid, token, text)) => KeyAction::SendInput { session_id: sid, token, text },
                        None => KeyAction::Nothing,
                    };
                    assert(message_sent(mid, *app, sent) && r == send_spec(sent));
                    assert(enter_step(mid, *app, r));
                    r
                },
            }
        },
        _ => KeyAction::Nothing,
    }
}

/// Typing a character and erasing it gives back the input, with the rest of
/// the client as it was, while no call waits for a decision.
pub proof fn law_type_then_erase(
    a0: App,
    c0: Completion,
    ch: char,
    a1: App,
    c1: Completion,
    r1: KeyAction,
    a2: App,
    c2: Completion,
    r2: KeyAction,
)
    requires
        a0.pending_tool_id is None,
        chat_key_step(a0, c0, Key::Char { c: ch, ctrl: false }, a1, c1, r1),
        chat_key_step(a1, c1, Key::Backspace, a2, c2, r2),
    ensures
        a2.input@ == a0.input@,
        a2 == (App { input: a2.input, ..a0 }),
        r1 is Nothing && r2 is Nothing,
{
    assert(a1.input@ == a0.input@.push(ch));
    assert(a1.input@.drop_last() =~= a0.input@);
}

} // verus!
