//! The built-in tools' own logic: reading their arguments, the todo list,
//! and how grep commands and results are shaped. Running processes, walking
//! directories and searching files is the host's part.

use vstd::prelude::*;
use crate::json::{JsonValue, compact_text, get_spec, json_compact};
use crate::layout::{char_utf8_len, join_lines, lemma_bytes_grow, lemma_bytes_strict, utf8_bytes};
use crate::shell_policy::{all_digits, args_view, digits_value, opt_args_view, simple_words, simple_words_spec};
use crate::shell_syntax::{ShellCommand, parse_shell_list, shell_parse};
use crate::text::{append_str, chars_of, eq_str, has_prefix, opt_view, push_char, string_of};
use crate::tool_view::{decimal, decimal_i64, decimal_spec, decimal_u64, signed_decimal};

verus! {

/// Why a tool call failed.
#[derive(Debug)]
pub enum ToolError {
    /// The arguments are not what the tool takes.
    InvalidArgs(String),
    /// The tool could not do what it was asked.
    Execution(String),
}

impl ToolError {
    /// What went wrong, in words.
    pub fn message(&self) -> (r: String)
        ensures
            r@ == match self {
                ToolError::InvalidArgs(m) => m@,
                ToolError::Execution(m) => m@,
            },
    {
        match self {
            ToolError::InvalidArgs(m) => m.clone(),
            ToolError::Execution(m) => m.clone(),
        }
    }
}

/// The number a JSON value holds, when it is a whole number that fits in
/// 64 unsigned bits.
pub open spec fn number_u64(v: Option<JsonValue>) -> Option<u64> {
    match v {
        Some(JsonValue::Number(s)) => if s@.len() > 0 && all_digits(s@) && digits_value(s@) <= u64::MAX {
            Some(digits_value(s@) as u64)
        } else {
            None
        },
        _ => None,
    }
}

/// The boolean a JSON value holds.
pub open spec fn bool_of(v: Option<JsonValue>) -> Option<bool> {
    match v {
        Some(JsonValue::Bool(b)) => Some(b),
        _ => None,
    }
}

/// The string a JSON value holds.
pub open spec fn str_of(v: Option<JsonValue>) -> Option<Seq<char>> {
    match v {
        Some(JsonValue::Str(s)) => Some(s@),
        _ => None,
    }
}

proof fn lemma_digits_prefix(d: Seq<char>, i: int)
    requires
        0 <= i <= d.len(),
        all_digits(d),
    ensures
        0 <= digits_value(d.take(i)) <= digits_value(d),
    decreases d.len() - i,
{
    if i < d.len() {
        lemma_digits_prefix(d, i + 1);
        assert(d.take(i + 1).drop_last() =~= d.take(i));
        assert(all_digits(d.take(i)));
        lemma_digits_nonneg(d.take(i));
    } else {
        assert(d.take(i) =~= d);
        lemma_digits_nonneg(d);
    }
}

proof fn lemma_digits_nonneg(d: Seq<char>)
    requires
        all_digits(d),
    ensures
        digits_value(d) >= 0,
    decreases d.len(),
{
    if d.len() > 0 {
        assert(all_digits(d.drop_last()));
        lemma_digits_nonneg(d.drop_last());
    }
}

/// The number under `key` of `args`, when it is a whole number that fits in
/// 64 unsigned bits (`Value::as_u64`).
pub fn u64_field(args: &JsonValue, key: &str) -> (r: Option<u64>)
    ensures
        r == number_u64(get_spec(*args, key@)),
{
    let v = match args.get(key) {
        Some(v) => v,
        None => {
            return None;
        },
    };
    let text = match v {
        JsonValue::Number(s) => s,
        _ => {
            return None;
        },
    };
    let cs = chars_of(text.as_str());
    if cs.len() == 0 {
        return None;
    }
    let mut value: u64 = 0;
    let mut i: usize = 0;
    while i < cs.len()
        invariant
            i <= cs.len(),
            cs@ == text@,
            get_spec(*args, key@) == Some(JsonValue::Number(*text)),
            cs@.len() > 0,
            all_digits(cs@.take(i as int)),
            value as int == digits_value(cs@.take(i as int)),
        decreases cs.len() - i,
    {
        assert(cs@.take(i + 1).drop_last() =~= cs@.take(i as int));
        let c = cs[i];
        if !('0' <= c && c <= '9') {
            proof {
                assert(cs@[i as int] == c);
                assert(!('0' <= cs@[i as int] && cs@[i as int] <= '9'));
                assert(!all_digits(cs@));
            }
            return None;
        }
        let d = (c as u64) - ('0' as u64);
        if value > (u64::MAX - d) / 10 {
            proof {
                assert(value * 10 + d > u64::MAX) by (nonlinear_arith)
                    requires
                        value > (u64::MAX - d) / 10,
                        d <= 9,
                ;
                assert(cs@.take(i + 1).last() == c);
                assert(digits_value(cs@.take(i + 1)) == value * 10 + d);
                if all_digits(cs@) {
                    lemma_digits_prefix(cs@, i + 1);
                    assert(digits_value(cs@) > u64::MAX);
                }
            }
            return None;
        }
        value = value * 10 + d;
        i = i + 1;
    }
    assert(cs@.take(cs.len() as int) =~= cs@);
    Some(value)
}

/// The boolean under `key` of `args` (`Value::as_bool`).
pub fn bool_field(args: &JsonValue, key: &str) -> (r: Option<bool>)
    ensures
        r == bool_of(get_spec(*args, key@)),
{
    match args.get(key) {
        Some(JsonValue::Bool(b)) => Some(*b),
        _ => None,
    }
}

/// The string under `key` of `args` (`Value::as_str`).
pub fn str_field(args: &JsonValue, key: &str) -> (r: Option<String>)
    ensures
        match r {
            Some(s) => str_of(get_spec(*args, key@)) == Some(s@),
            None => str_of(get_spec(*args, key@)) is None,
        },
{
    match args.get(key) {
        Some(v) => match v.as_str() {
            Some(s) => Some(s.to_owned()),
            None => None,
        },
        None => None,
    }
}

/// The characters a regex gives a meaning to.
pub open spec fn regex_special(c: char) -> bool {
    c == '\\' || c == '.' || c == '^' || c == '$' || c == '|' || c == '(' || c == ')' || c == '['
        || c == ']' || c == '{' || c == '}' || c == '*' || c == '+' || c == '?'
}

/// `s` with a backslash before each character a regex gives a meaning to.
pub open spec fn escaped(s: Seq<char>) -> Seq<char>
    decreases s.len(),
{
    if s.len() == 0 {
        seq![]
    } else {
        escaped(s.drop_last()) + if regex_special(s.last()) { seq!['\\', s.last()] } else { seq![s.last()] }
    }
}

/// A regex that matches the characters `cs` literally.
pub fn escape_chars(cs: &Vec<char>) -> (r: String)
    ensures
        r@ == escaped(cs@),
{
    let mut out = String::new();
    let mut i: usize = 0;
    while i < cs.len()
        invariant
            i <= cs.len(),
            out@ == escaped(cs@.take(i as int)),
        decreases cs.len() - i,
    {
        assert(cs@.take(i + 1).drop_last() =~= cs@.take(i as int));
        let c = cs[i];
        if c == '\\' || c == '.' || c == '^' || c == '$' || c == '|' || c == '(' || c == ')' || c == '['
            || c == ']' || c == '{' || c == '}' || c == '*' || c == '+' || c == '?' {
            push_char(&mut out, '\\');
        }
        push_char(&mut out, c);
        proof {
            if regex_special(c) {
                assert(out@ =~= escaped(cs@.take(i as int)) + seq!['\\', c]);
            } else {
                assert(out@ =~= escaped(cs@.take(i as int)) + seq![c]);
            }
        }
        i = i + 1;
    }
    assert(cs@.take(cs.len() as int) =~= cs@);
    out
}

/// A regex that matches `value` literally.
pub fn escape_regex(value: &str) -> (r: String)
    ensures
        r@ == escaped(value@),
{
    escape_chars(&chars_of(value))
}

/// Where a todo item stands.
#[derive(Debug, Clone, Copy, PartialEq, Eq, Structural)]
pub enum TodoStatus {
    Pending,
    InProgress,
    Done,
}

/// A todo item.
#[derive(Debug)]
pub struct TodoItem {
    pub id: u32,
    pub title: String,
    pub status: TodoStatus,
}

/// A todo item as a value.
pub struct TodoView {
    pub id: u32,
    pub title: Seq<char>,
    pub status: TodoStatus,
}

/// The todo items as values.
pub open spec fn todo_views(items: Seq<TodoItem>) -> Seq<TodoView> {
    items.map_values(|i: TodoItem| TodoView { id: i.id, title: i.title@, status: i.status })
}

/// The status a name stands for.
pub open spec fn status_spec(s: Seq<char>) -> Option<TodoStatus> {
    if s == "pending"@ {
        Some(TodoStatus::Pending)
    } else if s == "in_progress"@ {
        Some(TodoStatus::InProgress)
    } else if s == "done"@ {
        Some(TodoStatus::Done)
    } else {
        None
    }
}

/// The name of a status.
pub open spec fn status_name(st: TodoStatus) -> Seq<char> {
    match st {
        TodoStatus::Pending => "pending"@,
        TodoStatus::InProgress => "in_progress"@,
        TodoStatus::Done => "done"@,
    }
}

/// The status named `s`; an unknown name is refused.
pub fn parse_status(s: &str) -> (r: Result<TodoStatus, ToolError>)
    ensures
        match status_spec(s@) {
            Some(st) => r == Ok::<TodoStatus, ToolError>(st),
            None => r matches Err(ToolError::InvalidArgs(m)) && m@ == "unknown status: "@ + s@,
        },
{
    let cs = chars_of(s);
    if eq_str(&cs, "pending") {
        Ok(TodoStatus::Pending)
    } else if eq_str(&cs, "in_progress") {
        Ok(TodoStatus::InProgress)
    } else if eq_str(&cs, "done") {
        Ok(TodoStatus::Done)
    } else {
        let mut m = String::new();
        append_str(&mut m, "unknown status: ");
        append_str(&mut m, s);
        Err(ToolError::InvalidArgs(m))
    }
}

/// What a call of the todo tool answers.
pub enum TodoOutcome {
    /// The list, after the change.
    Listed,
    InvalidArgs(Seq<char>),
    Execution(Seq<char>),
}

/// The index of the first item with id `id`, or the length.
pub open spec fn item_index(items: Seq<TodoView>, id: u32, i: int) -> int
    decreases items.len() - i,
{
    if i < 0 || i >= items.len() {
        items.len() as int
    } else if items[i].id == id {
        i
    } else {
        item_index(items, id, i + 1)
    }
}

proof fn lemma_item_index_first(items: Seq<TodoView>, id: u32, i: int, k: int)
    requires
        0 <= i <= k < items.len(),
        items[k].id == id,
        forall|j: int| i <= j < k ==> items[j].id != id,
    ensures
        item_index(items, id, i) == k,
    decreases k - i,
{
    if i < k {
        lemma_item_index_first(items, id, i + 1, k);
    }
}

/// The items other than those with id `id`, in order.
pub open spec fn without_id(items: Seq<TodoView>, id: u32) -> Seq<TodoView>
    decreases items.len(),
{
    if items.len() == 0 {
        seq![]
    } else {
        let rest = without_id(items.drop_last(), id);
        if items.last().id == id { rest } else { rest.push(items.last()) }
    }
}

/// The message for an id with no item.
pub open spec fn no_item(id: u32) -> Seq<char> {
    "no item with id "@ + decimal_spec(id as nat)
}

/// What a call of the todo tool does to the list `items` with next id
/// `next`: the new list, the new next id and the answer.
pub open spec fn todo_call(items: Seq<TodoView>, next: u32, args: JsonValue) -> (Seq<TodoView>, int, TodoOutcome) {
    match str_of(get_spec(args, "action"@)) {
        None => (items, next as int, TodoOutcome::InvalidArgs("missing required field: action"@)),
        Some(action) => if action == "add"@ {
            match str_of(get_spec(args, "title"@)) {
                None => (items, next as int, TodoOutcome::InvalidArgs("add requires 'title'"@)),
                Some(title) => {
                    let name = match str_of(get_spec(args, "status"@)) {
                        Some(x) => x,
                        None => "pending"@,
                    };
                    match status_spec(name) {
                        None => (items, next as int, TodoOutcome::InvalidArgs("unknown status: "@ + name)),
                        Some(st) => (items.push(TodoView { id: next, title, status: st }), next + 1, TodoOutcome::Listed),
                    }
                },
            }
        } else if action == "update"@ {
            match number_u64(get_spec(args, "id"@)) {
                None => (items, next as int, TodoOutcome::InvalidArgs("update requires 'id'"@)),
                Some(n) => {
                    let id = #[verifier::truncate] (n as u32);
                    let k = item_index(items, id, 0);
                    if k >= items.len() {
                        (items, next as int, TodoOutcome::Execution(no_item(id)))
                    } else {
                        let titled = match str_of(get_spec(args, "title"@)) {
                            Some(t) => items.update(k, TodoView { title: t, ..items[k] }),
                            None => items,
                        };
                        match str_of(get_spec(args, "status"@)) {
                            None => (titled, next as int, TodoOutcome::Listed),
                            Some(x) => match status_spec(x) {
                                None => (titled, next as int, TodoOutcome::InvalidArgs("unknown status: "@ + x)),
                                Some(st) => (titled.update(k, TodoView { status: st, ..titled[k] }), next as int, TodoOutcome::Listed),
                            },
                        }
                    }
                },
            }
        } else if action == "remove"@ {
            match number_u64(get_spec(args, "id"@)) {
                None => (items, next as int, TodoOutcome::InvalidArgs("remove requires 'id'"@)),
                Some(n) => {
                    let id = #[verifier::truncate] (n as u32);
                    let kept = without_id(items, id);
                    if kept.len() == items.len() {
                        (items, next as int, TodoOutcome::Execution(no_item(id)))
                    } else {
                        (kept, next as int, TodoOutcome::Listed)
                    }
                },
            }
        } else if action == "list"@ {
            (items, next as int, TodoOutcome::Listed)
        } else {
            (items, next as int, TodoOutcome::InvalidArgs("unknown action: "@ + action))
        },
    }
}

/// An update of an existing item with a known status sets that status,
/// whether or not a title comes with it, and sets the title when one
/// does; the other items, their order and the next id stay as they were,
/// and the list is the answer.
pub proof fn lemma_todo_update_sets_status(items: Seq<TodoView>, next: u32, args: JsonValue, n: u64, k: int, x: Seq<char>, st: TodoStatus)
    requires
        str_of(get_spec(args, "action"@)) == Some("update"@),
        number_u64(get_spec(args, "id"@)) == Some(n),
        n <= u32::MAX,
        0 <= k < items.len(),
        items[k].id == n,
        forall|j: int| 0 <= j < k ==> items[j].id != n,
        str_of(get_spec(args, "status"@)) == Some(x),
        status_spec(x) == Some(st),
    ensures
        ({
            let (after, next_after, outcome) = todo_call(items, next, args);
            &&& outcome == TodoOutcome::Listed
            &&& next_after == next
            &&& after.len() == items.len()
            &&& after[k].id == items[k].id
            &&& after[k].status == st
            &&& after[k].title == match str_of(get_spec(args, "title"@)) {
                Some(t) => t,
                None => items[k].title,
            }
            &&& forall|j: int| 0 <= j < items.len() && j != k ==> after[j] == items[j]
        }),
{
    reveal_strlit("update");
    reveal_strlit("add");
    assert("update"@ != "add"@);
    let id = #[verifier::truncate] (n as u32);
    assert(id == n);
    lemma_item_index_first(items, id, 0, k);
}

/// Whether `v` is the JSON of one todo item.
pub open spec fn item_json(v: JsonValue, item: TodoView) -> bool {
    match v {
        JsonValue::Object(ms) => {
            &&& ms@.len() == 3
            &&& ms@[0].0@ == "id"@
            &&& ms@[0].1 == JsonValue::Number(ms@[0].1->Number_0)
            &&& ms@[0].1->Number_0@ == decimal_spec(item.id as nat)
            &&& ms@[1].0@ == "status"@
            &&& ms@[1].1 == JsonValue::Str(ms@[1].1->Str_0)
            &&& ms@[1].1->Str_0@ == status_name(item.status)
            &&& ms@[2].0@ == "title"@
            &&& ms@[2].1 == JsonValue::Str(ms@[2].1->Str_0)
            &&& ms@[2].1->Str_0@ == item.title
        },
        _ => false,
    }
}

/// Whether `v` is the JSON the todo tool answers with for `items`.
pub open spec fn list_json(v: JsonValue, items: Seq<TodoView>) -> bool {
    match v {
        JsonValue::Object(ms) => {
            &&& ms@.len() == 1
            &&& ms@[0].0@ == "items"@
            &&& ms@[0].1 == JsonValue::Array(ms@[0].1->Array_0)
            &&& ms@[0].1->Array_0@.len() == items.len()
            &&& forall|i: int| 0 <= i < items.len() ==> item_json(#[trigger] ms@[0].1->Array_0@[i], items[i])
        },
        _ => false,
    }
}

/// Removing the items with a given id leaves no more than there were, and
/// leaves the list as it was when none has that id.
proof fn lemma_without_id_same(items: Seq<TodoView>, id: u32)
    ensures
        without_id(items, id).len() <= items.len(),
        without_id(items, id).len() == items.len() ==> without_id(items, id) == items,
    decreases items.len(),
{
    if items.len() > 0 {
        lemma_without_id_same(items.drop_last(), id);
        if without_id(items, id).len() == items.len() {
            assert(items.drop_last().push(items.last()) =~= items);
        }
    }
}

/// The index of the first item with id `id`, or the length.
fn find_item(items: &Vec<TodoItem>, id: u32) -> (r: usize)
    ensures
        r <= items.len(),
        r == item_index(todo_views(items@), id, 0),
{
    let ghost views = todo_views(items@);
    let mut k: usize = 0;
    while k < items.len()
        invariant
            k <= items.len(),
            views == todo_views(items@),
            item_index(views, id, 0) == item_index(views, id, k as int),
        decreases items.len() - k,
    {
        if items[k].id == id {
            return k;
        }
        k = k + 1;
    }
    k
}

/// A todo list kept across calls.
pub struct TodoList {
    items: Vec<TodoItem>,
    next_id: u32,
}

impl TodoList {
    pub closed spec fn items_spec(&self) -> Seq<TodoView> {
        todo_views(self.items@)
    }

    pub closed spec fn next_id_spec(&self) -> u32 {
        self.next_id
    }

    /// The id the next item will get.
    pub fn next_id(&self) -> (r: u32)
        ensures
            r == self.next_id_spec(),
    {
        self.next_id
    }

    /// An empty list; the first item gets id 1.
    pub fn new() -> (r: TodoList)
        ensures
            r.items_spec().len() == 0,
            r.next_id_spec() == 1,
    {
        let r = TodoList { items: Vec::new(), next_id: 1 };
        assert(r.items_spec() =~= Seq::<TodoView>::empty());
        r
    }

    fn list_text(&self) -> (r: String)
        ensures
            exists|v: JsonValue| list_json(v, self.items_spec()) && r@ == #[trigger] json_compact(v),
    {
        let mut arr: Vec<JsonValue> = Vec::new();
        let mut i: usize = 0;
        while i < self.items.len()
            invariant
                i <= self.items.len(),
                arr@.len() == i,
                forall|k: int| 0 <= k < i ==> item_json(#[trigger] arr@[k], self.items_spec()[k]),
            decreases self.items.len() - i,
        {
            let item = &self.items[i];
            let status = match item.status {
                TodoStatus::Pending => "pending".to_owned(),
                TodoStatus::InProgress => "in_progress".to_owned(),
                TodoStatus::Done => "done".to_owned(),
            };
            let mut members: Vec<(String, JsonValue)> = Vec::new();
            members.push(("id".to_owned(), JsonValue::Number(decimal(item.id as usize))));
            members.push(("status".to_owned(), JsonValue::Str(status)));
            members.push(("title".to_owned(), JsonValue::Str(item.title.clone())));
            arr.push(JsonValue::Object(members));
            i = i + 1;
        }
        let mut top: Vec<(String, JsonValue)> = Vec::new();
        top.push(("items".to_owned(), JsonValue::Array(arr)));
        let v = JsonValue::Object(top);
        let r = compact_text(&v);
        assert(list_json(v, self.items_spec()));
        r
    }

    /// Acts on the list as `args` ask: `add`, `update`, `remove` or `list`;
    /// answers with the whole list as JSON, or with why the call failed.
    pub fn call(&mut self, args: &JsonValue) -> (r: Result<String, ToolError>)
        requires
            str_of(get_spec(*args, "action"@)) == Some("add"@) ==> old(self).next_id_spec() < u32::MAX,
        ensures
            ({
                let (items, next, outcome) = todo_call(old(self).items_spec(), old(self).next_id_spec(), *args);
                &&& final(self).items_spec() == items
                &&& final(self).next_id_spec() == next
                &&& match outcome {
                    TodoOutcome::Listed => r matches Ok(text) && exists|v: JsonValue| list_json(v, items)
                        && text@ == #[trigger] json_compact(v),
                    TodoOutcome::InvalidArgs(m) => r matches Err(ToolError::InvalidArgs(e)) && e@ == m,
                    TodoOutcome::Execution(m) => r matches Err(ToolError::Execution(e)) && e@ == m,
                }
            }),
    {
        let action = match str_field(args, "action") {
            Some(a) => a,
            None => {
                return Err(ToolError::InvalidArgs("missing required field: action".to_owned()));
            },
        };
        let acs = chars_of(action.as_str());
        if eq_str(&acs, "add") {
            let title = match str_field(args, "title") {
                Some(t) => t,
                None => {
                    return Err(ToolError::InvalidArgs("add requires 'title'".to_owned()));
                },
            };
            let name = match str_field(args, "status") {
                Some(x) => x,
                None => "pending".to_owned(),
            };
            let status = match parse_status(name.as_str()) {
                Ok(st) => st,
                Err(e) => {
                    return Err(e);
                },
            };
            let id = self.next_id;
            self.next_id = self.next_id + 1;
            let ghost before = self.items_spec();
            self.items.push(TodoItem { id, title, status });
            assert(self.items_spec() =~= before.push(TodoView { id, title: title@, status }));
        } else if eq_str(&acs, "update") {
            let n = match u64_field(args, "id") {
                Some(n) => n,
                None => {
                    return Err(ToolError::InvalidArgs("update requires 'id'".to_owned()));
                },
            };
            let id = #[verifier::truncate] (n as u32);
            let ghost before = self.items_spec();
            let k = find_item(&self.items, id);
            if k == self.items.len() {
                let mut m = String::new();
                append_str(&mut m, "no item with id ");
                append_str(&mut m, decimal(id as usize).as_str());
                return Err(ToolError::Execution(m));
            }
            let mut item = self.items.remove(k);
            match str_field(args, "title") {
                Some(t) => {
                    item.title = t;
                },
                None => {},
            }
            let status_name = str_field(args, "status");
            match status_name {
                None => {
                    self.items.insert(k, item);
                    assert(self.items_spec() =~= todo_call(before, self.next_id, *args).0);
                },
                Some(x) => match parse_status(x.as_str()) {
                    Ok(st) => {
                        item.status = st;
                        self.items.insert(k, item);
                        assert(self.items_spec() =~= todo_call(before, self.next_id, *args).0);
                    },
                    Err(e) => {
                        self.items.insert(k, item);
                        assert(self.items_spec() =~= todo_call(before, self.next_id, *args).0);
                        return Err(e);
                    },
                },
            }
        } else if eq_str(&acs, "remove") {
            let n = match u64_field(args, "id") {
                Some(n) => n,
                None => {
                    return Err(ToolError::InvalidArgs("remove requires 'id'".to_owned()));
                },
            };
            let id = #[verifier::truncate] (n as u32);
            let ghost before = self.items_spec();
            let mut items: Vec<TodoItem> = Vec::new();
            std::mem::swap(&mut items, &mut self.items);
            let ghost all = items@;
            let total = items.len();
            let mut kept: Vec<TodoItem> = Vec::new();
            while items.len() > 0
                invariant
                    all.len() == total,
                    items@.len() <= all.len(),
                    todo_views(all) == before,
                    items@ == all.subrange(all.len() - items@.len(), all.len() as int),
                    todo_views(kept@) == without_id(before.take(all.len() - items@.len()), id),
                decreases items.len(),
            {
                let ghost k = all.len() - items@.len();
                let item = items.remove(0);
                assert(item == all[k]);
                assert(before.take(k + 1).drop_last() =~= before.take(k));
                if item.id != id {
                    let ghost prev = todo_views(kept@);
                    kept.push(item);
                    assert(todo_views(kept@) =~= prev.push(before[k]));
                }
                assert(items@ =~= all.subrange(all.len() - items@.len(), all.len() as int));
            }
            assert(before.take(all.len() as int) =~= before);
            let unchanged = kept.len() == total;
            self.items = kept;
            if unchanged {
                proof {
                    lemma_without_id_same(before, id);
                }
                let mut m = String::new();
                append_str(&mut m, "no item with id ");
                append_str(&mut m, decimal(id as usize).as_str());
                return Err(ToolError::Execution(m));
            }
        } else if eq_str(&acs, "list") {
        } else {
            let mut m = String::new();
            append_str(&mut m, "unknown action: ");
            append_str(&mut m, action.as_str());
            return Err(ToolError::InvalidArgs(m));
        }
        Ok(self.list_text())
    }
}


/// The echo tool, which hands its message back.
pub struct Dummy;

/// Whether `v` is the JSON object `{"echo": message}`.
pub open spec fn echo_json(v: JsonValue, message: Seq<char>) -> bool {
    match v {
        JsonValue::Object(ms) => {
            &&& ms@.len() == 1
            &&& ms@[0].0@ == "echo"@
            &&& ms@[0].1 == JsonValue::Str(ms@[0].1->Str_0)
            &&& ms@[0].1->Str_0@ == message
        },
        _ => false,
    }
}

impl Dummy {
    /// Answers with `{"echo": message}` for the string `message` of `args`.
    pub fn call(&self, args: &JsonValue) -> (r: Result<String, ToolError>)
        ensures
            match str_of(get_spec(*args, "message"@)) {
                None => r matches Err(ToolError::InvalidArgs(m)) && m@ == "missing required field: message"@,
                Some(message) => r matches Ok(text) && exists|v: JsonValue| echo_json(v, message) && text@ == #[trigger] json_compact(v),
            },
    {
        let message = match str_field(args, "message") {
            Some(m) => m,
            None => {
                return Err(ToolError::InvalidArgs("missing required field: message".to_owned()));
            },
        };
        let mut members: Vec<(String, JsonValue)> = Vec::new();
        members.push(("echo".to_owned(), JsonValue::Str(message)));
        let v = JsonValue::Object(members);
        let text = compact_text(&v);
        assert(echo_json(v, str_of(get_spec(*args, "message"@)).unwrap()));
        Ok(text)
    }
}

/// The grep tool, which searches files for a regex.
pub struct Grep;

/// A search the grep tool makes.
#[derive(Debug)]
pub struct GrepRequest {
    pub pattern: String,
    pub path: String,
    pub recursive: bool,
    pub case_insensitive: bool,
    pub context_lines: usize,
    pub max_matches: usize,
}

/// Flags read from a grep command line: recursive, case-insensitive, fixed string.
pub type GrepFlags = (bool, bool, bool);

/// What the option letter `c` does to `st`; `None` for a letter the tool
/// does not take.
pub open spec fn grep_option(st: GrepFlags, c: char) -> Option<GrepFlags> {
    if c == 'i' {
        Some((st.0, true, st.2))
    } else if c == 'r' || c == 'R' {
        Some((true, st.1, st.2))
    } else if c == 'E' || c == 'G' || c == 'H' || c == 'n' || c == 's' {
        Some(st)
    } else if c == 'F' {
        Some((st.0, st.1, true))
    } else {
        None
    }
}

/// The flags after the option letters of `arg` from its `j`-th character on.
pub open spec fn grep_bundle(arg: Seq<char>, j: int, st: GrepFlags) -> Option<GrepFlags>
    decreases arg.len() - j,
{
    if j < 0 || j >= arg.len() {
        Some(st)
    } else {
        match grep_option(st, arg[j]) {
            None => None,
            Some(next) => grep_bundle(arg, j + 1, next),
        }
    }
}

/// Where the options of `words` end, reading from `i` with flags `st`, and
/// the flags they set; `None` when an option is one the tool does not take.
pub open spec fn grep_options_end(words: Seq<Seq<char>>, i: int, st: GrepFlags) -> Option<(int, GrepFlags)>
    decreases words.len() - i,
{
    if i < 0 || i >= words.len() {
        Some((i, st))
    } else if words[i] == "--"@ {
        Some((i + 1, st))
    } else if !(words[i].len() > 0 && words[i][0] == '-') || words[i] == "-"@ {
        Some((i, st))
    } else {
        match grep_bundle(words[i], 1, st) {
            None => None,
            Some(next) => grep_options_end(words, i + 1, next),
        }
    }
}

/// The search a `grep` or `rg` command line asks for: pattern, path,
/// recursive, case-insensitive.
pub open spec fn grep_command_spec(words: Seq<Seq<char>>) -> Option<(Seq<char>, Seq<char>, bool, bool)> {
    if words.len() == 0 || (words[0] != "grep"@ && words[0] != "rg"@) {
        None
    } else {
        match grep_options_end(words, 1, (words[0] == "rg"@, false, false)) {
            None => None,
            Some((k, st)) => if k >= words.len() || k + 2 < words.len() {
                None
            } else {
                Some((
                    if st.2 { escaped(words[k]) } else { words[k] },
                    if k + 1 < words.len() { words[k + 1] } else { "."@ },
                    st.0,
                    st.1,
                ))
            },
        }
    }
}

/// The text of a number of matches and its lines: the lines, one per line,
/// with a note when the search stopped at `max_matches`; a fixed sentence
/// when nothing matched.
pub open spec fn grep_output_spec(lines: Seq<Seq<char>>, truncated: bool, max_matches: nat) -> Seq<char> {
    if lines.len() == 0 {
        "No matches found."@
    } else if truncated {
        join_lines(lines) + "\n[Truncated at "@ + decimal_spec(max_matches) + " matches]"@
    } else {
        join_lines(lines)
    }
}

/// `s` without the line feeds and carriage returns at its end.
pub open spec fn trim_newlines(s: Seq<char>) -> Seq<char>
    decreases s.len(),
{
    if s.len() > 0 && (s.last() == '\n' || s.last() == '\r') {
        trim_newlines(s.drop_last())
    } else {
        s
    }
}

/// The views of some strings.
pub open spec fn views(v: Seq<String>) -> Seq<Seq<char>> {
    v.map_values(|s: String| s@)
}

impl Grep {
    /// The search a `grep` or `rg` command line asks for, when the tool can
    /// answer it itself: the command is `grep` (or `rg`, which searches
    /// recursively), its options are among `-i -r -R -E -G -H -n -s -F`
    /// (`-F` takes the pattern literally), and a pattern and at most one
    /// path follow (the current directory by default). It shows no context
    /// and stops at 500 matches.
    pub fn shell_request(words: &Vec<Vec<char>>) -> (r: Option<GrepRequest>)
        ensures
            match grep_command_spec(args_view(words@)) {
                None => r is None,
                Some((pattern, path, recursive, case_insensitive)) => r matches Some(q) && q.pattern@ == pattern
                    && q.path@ == path && q.recursive == recursive && q.case_insensitive == case_insensitive
                    && q.context_lines == 0 && q.max_matches == 500,
            },
    {
        let ghost wv = args_view(words@);
        if words.len() == 0 {
            return None;
        }
        let rg = eq_str(&words[0], "rg");
        if !eq_str(&words[0], "grep") && !rg {
            return None;
        }
        let mut recursive = rg;
        let mut case_insensitive = false;
        let mut fixed = false;
        let ghost start: GrepFlags = (rg, false, false);
        proof {
            reveal_strlit("rg");
            reveal_strlit("grep");
            assert(wv[0] == words@[0]@);
        }
        let mut index: usize = 1;
        let mut done = false;
        while !done && index < words.len()
            invariant
                1 <= index <= words.len(),
                wv == args_view(words@),
                wv.len() == words@.len(),
                start == (rg, false, false),
                wv.len() > 0 && (wv[0] == "grep"@ || wv[0] == "rg"@),
                rg == (wv[0] == "rg"@),
                grep_options_end(wv, 1, start) == if done {
                    Some((index as int, (recursive, case_insensitive, fixed)))
                } else {
                    grep_options_end(wv, index as int, (recursive, case_insensitive, fixed))
                },
            decreases 2 * (words.len() - index) + if done { 0int } else { 1int },
        {
            let arg = &words[index];
            assert(wv[index as int] == arg@);
            if eq_str(arg, "--") {
                index = index + 1;
                done = true;
            } else if !(arg.len() > 0 && arg[0] == '-') || eq_str(arg, "-") {
                done = true;
            } else {
                let ghost before: GrepFlags = (recursive, case_insensitive, fixed);
                assert(grep_options_end(wv, index as int, before) == match grep_bundle(arg@, 1, before) {
                    None => None,
                    Some(next) => grep_options_end(wv, index + 1, next),
                });
                let mut j: usize = 1;
                while j < arg.len()
                    invariant
                        1 <= j <= arg.len(),
                        1 <= index < words.len(),
                        wv == args_view(words@),
                        wv.len() == words@.len(),
                        start == (rg, false, false),
                        wv.len() > 0 && (wv[0] == "grep"@ || wv[0] == "rg"@),
                        rg == (wv[0] == "rg"@),
                        grep_options_end(wv, 1, start) == grep_options_end(wv, index as int, before),
                        grep_options_end(wv, index as int, before) == match grep_bundle(arg@, j as int, (recursive, case_insensitive, fixed)) {
                            None => None,
                            Some(next) => grep_options_end(wv, index + 1, next),
                        },
                    decreases arg.len() - j,
                {
                    let c = arg[j];
                    if c == 'i' {
                        case_insensitive = true;
                    } else if c == 'r' || c == 'R' {
                        recursive = true;
                    } else if c == 'E' || c == 'G' || c == 'H' || c == 'n' || c == 's' {
                    } else if c == 'F' {
                        fixed = true;
                    } else {
                        return None;
                    }
                    j = j + 1;
                }
                index = index + 1;
            }
        }
        if index >= words.len() || words.len() - index > 2 {
            return None;
        }
        let word = &words[index];
        let pattern = if fixed { escape_chars(word) } else { string_of(word, 0, word.len()) };
        let path = if index + 1 < words.len() {
            string_of(&words[index + 1], 0, words[index + 1].len())
        } else {
            ".".to_owned()
        };
        proof {
            assert(word@.subrange(0, word@.len() as int) =~= word@);
            if index + 1 < words.len() {
                assert(words@[index + 1]@.subrange(0, words@[index + 1]@.len() as int) =~= words@[index + 1]@);
            }
        }
        Some(GrepRequest { pattern, path, recursive, case_insensitive, context_lines: 0, max_matches: 500 })
    }

    /// The search that the tool's JSON arguments ask for: `pattern` and
    /// `path` are required; `recursive` defaults to true,
    /// `case_insensitive` to false, `context_lines` to 0 and `max_matches`
    /// to 500.
    pub fn parse_args(args: &JsonValue) -> (r: Result<GrepRequest, ToolError>)
        ensures
            match (str_of(get_spec(*args, "pattern"@)), str_of(get_spec(*args, "path"@))) {
                (None, _) => r matches Err(ToolError::InvalidArgs(m)) && m@ == "missing required field: pattern"@,
                (Some(_), None) => r matches Err(ToolError::InvalidArgs(m)) && m@ == "missing required field: path"@,
                (Some(pattern), Some(path)) => r matches Ok(q) && q.pattern@ == pattern && q.path@ == path
                    && q.recursive == match bool_of(get_spec(*args, "recursive"@)) { Some(b) => b, None => true }
                    && q.case_insensitive == match bool_of(get_spec(*args, "case_insensitive"@)) { Some(b) => b, None => false }
                    && q.context_lines == match number_u64(get_spec(*args, "context_lines"@)) { Some(n) => n as usize, None => 0 }
                    && q.max_matches == match number_u64(get_spec(*args, "max_matches"@)) { Some(n) => n as usize, None => 500 },
            },
    {
        let pattern = match str_field(args, "pattern") {
            Some(p) => p,
            None => {
                return Err(ToolError::InvalidArgs("missing required field: pattern".to_owned()));
            },
        };
        let path = match str_field(args, "path") {
            Some(p) => p,
            None => {
                return Err(ToolError::InvalidArgs("missing required field: path".to_owned()));
            },
        };
        let recursive = match bool_field(args, "recursive") {
            Some(b) => b,
            None => true,
        };
        let case_insensitive = match bool_field(args, "case_insensitive") {
            Some(b) => b,
            None => false,
        };
        let context_lines: usize = match u64_field(args, "context_lines") {
            Some(n) => #[verifier::truncate] (n as usize),
            None => 0,
        };
        let max_matches: usize = match u64_field(args, "max_matches") {
            Some(n) => #[verifier::truncate] (n as usize),
            None => 500,
        };
        Ok(GrepRequest { pattern, path, recursive, case_insensitive, context_lines, max_matches })
    }
}

/// The message of the error `grep`'s `RegexMatcherBuilder::build` gives
/// for `pattern` (case-insensitive or not), or `None` when it compiles.
pub uninterp spec fn regex_error(pattern: Seq<char>, case_insensitive: bool) -> Option<Seq<char>>;

/// Compiles `pattern` with `grep::regex::RegexMatcherBuilder` (with
/// `case_insensitive` set) and hands back the error's message, if any. The
/// contract names the result.
#[verifier::external_body]
pub fn check_pattern(pattern: &str, case_insensitive: bool) -> (r: Option<String>)
    ensures
        opt_view(r) == regex_error(pattern@, case_insensitive),
{
    grep::regex::RegexMatcherBuilder::new().case_insensitive(case_insensitive).build(pattern).err().map(|e| e.to_string())
}

/// The error a search fails with before it looks at any file: none when its
/// pattern compiled, else `invalid regex: ` and the compiler's message.
pub fn grep_request_error(error: Option<String>) -> (r: Option<ToolError>)
    ensures
        match error {
            None => r is None,
            Some(m) => r matches Some(ToolError::InvalidArgs(t)) && t@ == "invalid regex: "@ + m@,
        },
{
    match error {
        None => None,
        Some(m) => {
            let mut t = String::new();
            append_str(&mut t, "invalid regex: ");
            append_str(&mut t, m.as_str());
            Some(ToolError::InvalidArgs(t))
        },
    }
}

/// The error a search fails with when its pattern does not compile (see
/// `grep_request_error`); none when it does.
pub fn pattern_error(req: &GrepRequest) -> (r: Option<ToolError>)
    ensures
        match regex_error(req.pattern@, req.case_insensitive) {
            None => r is None,
            Some(m) => r matches Some(ToolError::InvalidArgs(t)) && t@ == "invalid regex: "@ + m,
        },
{
    let e = check_pattern(req.pattern.as_str(), req.case_insensitive);
    grep_request_error(e)
}

/// The answer of a search from the lines it found, in order: the lines
/// joined by newlines, with `[Truncated at N matches]` on a line of its own
/// when the search stopped at `max_matches`; `No matches found.` when there
/// are none.
pub fn grep_output(lines: &Vec<String>, truncated: bool, max_matches: usize) -> (r: String)
    ensures
        r@ == grep_output_spec(views(lines@), truncated, max_matches as nat),
{
    if lines.len() == 0 {
        return "No matches found.".to_owned();
    }
    let ghost lv = views(lines@);
    let mut out = String::new();
    let mut i: usize = 0;
    while i < lines.len()
        invariant
            i <= lines.len(),
            lv == views(lines@),
            out@ == join_lines(lv.take(i as int)),
        decreases lines.len() - i,
    {
        let ghost before = lv.take(i as int);
        if i > 0 {
            push_char(&mut out, '\n');
        }
        append_str(&mut out, lines[i].as_str());
        proof {
            let now = lv.take(i + 1);
            assert(now.drop_last() =~= before);
            if i > 0 {
                assert(out@ =~= join_lines(before) + seq!['\n'] + now.last());
            } else {
                assert(out@ =~= now[0]);
            }
        }
        i = i + 1;
    }
    assert(lv.take(lines.len() as int) =~= lv);
    if truncated {
        append_str(&mut out, "\n[Truncated at ");
        append_str(&mut out, decimal(max_matches).as_str());
        append_str(&mut out, " matches]");
    }
    out
}

/// `text` without the line feeds and carriage returns at its end.
pub fn trim_line_end(text: &str) -> (r: String)
    ensures
        r@ == trim_newlines(text@),
{
    let cs = chars_of(text);
    let mut n: usize = cs.len();
    assert(cs@.take(cs.len() as int) =~= cs@);
    while n > 0 && (cs[n - 1] == '\n' || cs[n - 1] == '\r')
        invariant
            n <= cs.len(),
            trim_newlines(cs@) == trim_newlines(cs@.take(n as int)),
        decreases n,
    {
        assert(cs@.take(n as int).drop_last() =~= cs@.take(n - 1));
        n = n - 1;
    }
    assert(cs@.subrange(0, n as int) =~= cs@.take(n as int));
    assert(cs@.take(cs.len() as int) =~= cs@);
    string_of(&cs, 0, n)
}

/// The line a search reports for a match (`path:line:text`) or for a line
/// of context around one (`path-line-text`).
pub open spec fn found_line(path: Seq<char>, sep: char, line_number: Option<u64>, text: Seq<char>) -> Seq<char> {
    let n = match line_number { Some(n) => n, None => 0 };
    path + seq![sep] + decimal_spec(n as nat) + seq![sep] + trim_newlines(text)
}

/// The lines a search finds in one file, for a search that stops after a
/// number of matches over all files.
pub struct CollectSink {
    pub path: String,
    pub lines: Vec<String>,
    pub max_matches: usize,
}

impl CollectSink {
    /// A sink for the file shown as `path`, with no lines yet.
    pub fn new(path: String, max_matches: usize) -> (r: CollectSink)
        ensures
            r.path == path,
            r.lines@.len() == 0,
            r.max_matches == max_matches,
    {
        CollectSink { path, lines: Vec::new(), max_matches }
    }

    /// Whether one more match may be taken when `count` matches were taken
    /// over all files; the search stops, truncated, when not.
    pub fn has_room(&self, count: usize) -> (r: bool)
        ensures
            r == (count < self.max_matches),
    {
        count < self.max_matches
    }

    fn push_line(&mut self, sep: char, line_number: Option<u64>, text: &str)
        ensures
            final(self).path == old(self).path,
            final(self).max_matches == old(self).max_matches,
            views(final(self).lines@) == views(old(self).lines@).push(found_line(old(self).path@, sep, line_number, text@)),
    {
        let n: u64 = match line_number {
            Some(n) => n,
            None => 0,
        };
        let mut line = String::new();
        append_str(&mut line, self.path.as_str());
        push_char(&mut line, sep);
        append_str(&mut line, decimal_u64(n).as_str());
        push_char(&mut line, sep);
        append_str(&mut line, trim_line_end(text).as_str());
        assert(line@ =~= found_line(self.path@, sep, line_number, text@));
        let ghost before = self.lines@;
        self.lines.push(line);
        assert(views(self.lines@) =~= views(before).push(line@));
    }

    /// Takes a matching line (`text`, at `line_number` when known).
    pub fn matched(&mut self, line_number: Option<u64>, text: &str)
        ensures
            final(self).path == old(self).path,
            final(self).max_matches == old(self).max_matches,
            views(final(self).lines@) == views(old(self).lines@).push(found_line(old(self).path@, ':', line_number, text@)),
    {
        self.push_line(':', line_number, text)
    }

    /// Takes a line of context around a match.
    pub fn context(&mut self, line_number: Option<u64>, text: &str)
        ensures
            final(self).path == old(self).path,
            final(self).max_matches == old(self).max_matches,
            views(final(self).lines@) == views(old(self).lines@).push(found_line(old(self).path@, '-', line_number, text@)),
    {
        self.push_line('-', line_number, text)
    }
}


/// Strict order of strings, character by character. Comparing the
/// characters' code points orders strings as their UTF-8 bytes do, which is
/// how `String` is ordered.
pub open spec fn lex_lt(a: Seq<char>, b: Seq<char>) -> bool
    decreases a.len(),
{
    if b.len() == 0 {
        false
    } else if a.len() == 0 {
        true
    } else if a[0] != b[0] {
        (a[0] as u32) < (b[0] as u32)
    } else {
        lex_lt(a.drop_first(), b.drop_first())
    }
}

/// Whether `s` is in ascending order.
pub open spec fn lex_sorted(s: Seq<Seq<char>>) -> bool {
    forall|i: int, j: int| 0 <= i < j < s.len() ==> !lex_lt(#[trigger] s[j], #[trigger] s[i])
}

proof fn lemma_lex_irreflexive(a: Seq<char>)
    ensures
        !lex_lt(a, a),
    decreases a.len(),
{
    if a.len() > 0 {
        lemma_lex_irreflexive(a.drop_first());
    }
}

proof fn lemma_lex_transitive(a: Seq<char>, b: Seq<char>, c: Seq<char>)
    requires
        lex_lt(a, b),
        lex_lt(b, c),
    ensures
        lex_lt(a, c),
    decreases a.len(),
{
    if a.len() > 0 && b.len() > 0 && c.len() > 0 && a[0] == b[0] && b[0] == c[0] {
        lemma_lex_transitive(a.drop_first(), b.drop_first(), c.drop_first());
    }
}

/// Inserting `x` before the first element greater than it keeps a sorted
/// sequence sorted.
proof fn lemma_insert_sorted(s: Seq<Seq<char>>, p: int, x: Seq<char>)
    requires
        lex_sorted(s),
        0 <= p <= s.len(),
        forall|q: int| 0 <= q < p ==> !lex_lt(x, #[trigger] s[q]),
        p < s.len() ==> lex_lt(x, s[p]),
    ensures
        lex_sorted(s.insert(p, x)),
{
    let t = s.insert(p, x);
    assert forall|i: int, j: int| 0 <= i < j < t.len() implies !lex_lt(#[trigger] t[j], #[trigger] t[i]) by {
        if i == p && j > p {
            if lex_lt(s[j - 1], x) {
                lemma_lex_transitive(s[j - 1], x, s[p]);
                if j - 1 == p {
                    lemma_lex_irreflexive(s[p]);
                } else {
                    assert(!lex_lt(s[j - 1], s[p]));
                }
            }
        } else if i < p && j == p {
            assert(t[j] == x && t[i] == s[i]);
        } else if i < p && j > p {
            assert(t[j] == s[j - 1] && t[i] == s[i]);
        } else if i > p {
            assert(t[j] == s[j - 1] && t[i] == s[i - 1]);
        } else {
            assert(t[j] == s[j] && t[i] == s[i]);
        }
    }
}

/// Whether `a` comes before `b` in string order.
pub fn str_lt(a: &str, b: &str) -> (r: bool)
    ensures
        r == lex_lt(a@, b@),
{
    let x = chars_of(a);
    let y = chars_of(b);
    let mut i: usize = 0;
    assert(x@.skip(0) =~= x@);
    assert(y@.skip(0) =~= y@);
    while i < x.len() && i < y.len() && x[i] == y[i]
        invariant
            i <= x.len(),
            i <= y.len(),
            x@ == a@,
            y@ == b@,
            lex_lt(a@, b@) == lex_lt(x@.skip(i as int), y@.skip(i as int)),
        decreases x.len() - i,
    {
        assert(x@.skip(i as int).drop_first() =~= x@.skip(i + 1));
        assert(y@.skip(i as int).drop_first() =~= y@.skip(i + 1));
        i = i + 1;
    }
    assert(x@.skip(0) =~= x@);
    if i == y.len() {
        false
    } else if i == x.len() {
        true
    } else {
        (x[i] as u32) < (y[i] as u32)
    }
}

/// `entries` in ascending string order.
pub fn sort_strings(entries: Vec<String>) -> (r: Vec<String>)
    ensures
        lex_sorted(views(r@)),
        views(r@).to_multiset() == views(entries@).to_multiset(),
{
    broadcast use vstd::seq_lib::group_to_multiset_ensures, vstd::seq_lib::to_multiset_insert;
    broadcast use vstd::multiset::group_multiset_axioms;

    let mut rest = entries;
    let mut out: Vec<String> = Vec::new();
    assert(views(out@) =~= Seq::<Seq<char>>::empty());
    assert(views(out@).to_multiset() =~= vstd::multiset::Multiset::empty());
    assert(views(rest@) =~= views(entries@));
    while rest.len() > 0
        invariant
            lex_sorted(views(out@)),
            views(out@).to_multiset().add(views(rest@).to_multiset()) == views(entries@).to_multiset(),
        decreases rest.len(),
    {
        let ghost before_rest = views(rest@);
        let x = rest.pop().unwrap();
        assert(before_rest =~= views(rest@).push(x@));
        let ghost ov = views(out@);
        let mut p: usize = 0;
        while p < out.len() && !str_lt(x.as_str(), out[p].as_str())
            invariant
                p <= out.len(),
                ov == views(out@),
                forall|q: int| 0 <= q < p ==> !lex_lt(x@, #[trigger] ov[q]),
            decreases out.len() - p,
        {
            p = p + 1;
        }
        proof {
            lemma_insert_sorted(ov, p as int, x@);
        }
        out.insert(p, x);
        assert(views(out@) =~= ov.insert(p as int, x@));
        proof {
            vstd::seq_lib::to_multiset_insert(ov, p as int, x@);
            vstd::seq_lib::to_multiset_build(views(rest@), x@);
        }
        assert(views(out@).to_multiset().add(views(rest@).to_multiset()) =~= views(entries@).to_multiset());
    }
    assert(views(rest@) =~= Seq::<Seq<char>>::empty());
    assert(views(out@).to_multiset() =~= views(entries@).to_multiset());
    out
}

/// The directory-listing tool.
pub struct ListFiles;

/// Whether `v` is the JSON object `{"entries": [...]}` of `entries`.
pub open spec fn entries_json(v: JsonValue, entries: Seq<Seq<char>>) -> bool {
    match v {
        JsonValue::Object(ms) => {
            &&& ms@.len() == 1
            &&& ms@[0].0@ == "entries"@
            &&& ms@[0].1 == JsonValue::Array(ms@[0].1->Array_0)
            &&& ms@[0].1->Array_0@.len() == entries.len()
            &&& forall|i: int| 0 <= i < entries.len() ==> (#[trigger] ms@[0].1->Array_0@[i] == JsonValue::Str(
                ms@[0].1->Array_0@[i]->Str_0) && ms@[0].1->Array_0@[i]->Str_0@ == entries[i])
        },
        _ => false,
    }
}

impl ListFiles {
    /// The directory and whether to walk it whole, from the tool's JSON
    /// arguments: `path` is required, `recursive` defaults to false.
    pub fn parse_args(args: &JsonValue) -> (r: Result<(String, bool), ToolError>)
        ensures
            match str_of(get_spec(*args, "path"@)) {
                None => r matches Err(ToolError::InvalidArgs(m)) && m@ == "missing required field: path"@,
                Some(path) => r matches Ok((p, recursive)) && p@ == path
                    && recursive == match bool_of(get_spec(*args, "recursive"@)) { Some(b) => b, None => false },
            },
    {
        let path = match str_field(args, "path") {
            Some(p) => p,
            None => {
                return Err(ToolError::InvalidArgs("missing required field: path".to_owned()));
            },
        };
        let recursive = match bool_field(args, "recursive") {
            Some(b) => b,
            None => false,
        };
        Ok((path, recursive))
    }

    /// How an entry is listed: its path relative to the directory, with a
    /// slash after it when it is a directory.
    pub fn entry_label(relative: &str, is_dir: bool) -> (r: String)
        ensures
            r@ == if is_dir { relative@.push('/') } else { relative@ },
    {
        let mut s = String::new();
        append_str(&mut s, relative);
        if is_dir {
            push_char(&mut s, '/');
        }
        s
    }

    /// The tool's answer for the entries found: `{"entries": [...]}` with
    /// the entries in ascending order.
    pub fn entries_text(entries: Vec<String>) -> (r: String)
        ensures
            exists|v: JsonValue, sorted: Seq<Seq<char>>| #![trigger entries_json(v, sorted)] lex_sorted(sorted)
                && sorted.to_multiset() == views(entries@).to_multiset()
                && entries_json(v, sorted) && r@ == json_compact(v),
    {
        let sorted = sort_strings(entries);
        let ghost sv = views(sorted@);
        let mut arr: Vec<JsonValue> = Vec::new();
        let mut rest = sorted;
        let n = rest.len();
        let mut rev: Vec<String> = Vec::new();
        while rest.len() > 0
            invariant
                rev@.len() + rest@.len() == n,
                n == sv.len(),
                views(rest@) == sv.take(rest@.len() as int),
                forall|k: int| 0 <= k < rev@.len() ==> (#[trigger] rev@[k])@ == sv[n - 1 - k],
            decreases rest.len(),
        {
            let ghost before = views(rest@);
            let s = rest.pop().unwrap();
            assert(s@ == before[rest@.len() as int]);
            assert(views(rest@) =~= before.drop_last());
            assert(views(rest@) =~= sv.take(rest@.len() as int));
            rev.push(s);
        }
        while rev.len() > 0
            invariant
                rev@.len() + arr@.len() == n,
                n == sv.len(),
                forall|k: int| 0 <= k < rev@.len() ==> (#[trigger] rev@[k])@ == sv[n - 1 - k],
                forall|k: int| 0 <= k < arr@.len() ==> (#[trigger] arr@[k] == JsonValue::Str(arr@[k]->Str_0)
                    && arr@[k]->Str_0@ == sv[k]),
            decreases rev.len(),
        {
            let s = rev.pop().unwrap();
            arr.push(JsonValue::Str(s));
        }
        let mut members: Vec<(String, JsonValue)> = Vec::new();
        members.push(("entries".to_owned(), JsonValue::Array(arr)));
        let v = JsonValue::Object(members);
        assert(entries_json(v, sv));
        compact_text(&v)
    }
}

/// A shell command line that is one plain command, as its words: no
/// sequence, pipe, negation, background job, assignment or redirection, and
/// no word that would need expanding.
pub open spec fn simple_command_spec(command: Seq<char>) -> Option<Seq<Seq<char>>> {
    match shell_parse(command) {
        None => None,
        Some(list) => if list.items@.len() == 1 && list.items@[0].async_flag is None
            && list.items@[0].and_or.rest@.len() == 0 && !list.items@[0].and_or.first.negation
            && list.items@[0].and_or.first.commands@.len() == 1 {
            match list.items@[0].and_or.first.commands@[0] {
                ShellCommand::Simple(simple) => if simple.assigns@.len() == 0 && simple.redirs@.len() == 0 {
                    simple_words_spec(simple, true)
                } else {
                    None
                },
                _ => None,
            }
        } else {
            None
        },
    }
}

/// The words of `command` when it is one plain command (see
/// `simple_command_spec`).
pub fn parse_simple_command(command: &str) -> (r: Option<Vec<Vec<char>>>)
    ensures
        opt_args_view(r) == simple_command_spec(command@),
{
    let list = match parse_shell_list(command) {
        Some(l) => l,
        None => {
            return None;
        },
    };
    if list.items.len() != 1 {
        return None;
    }
    let item = &list.items[0];
    if item.async_flag.is_some() || item.and_or.rest.len() != 0 || item.and_or.first.negation
        || item.and_or.first.commands.len() != 1 {
        return None;
    }
    match &item.and_or.first.commands[0] {
        ShellCommand::Simple(simple) => if simple.assigns.len() == 0 && simple.redirs.len() == 0 {
            simple_words(simple, true)
        } else {
            None
        },
        _ => None,
    }
}

/// The shell tool, which runs a command line.
pub struct Shell;

/// The most bytes of each output stream the shell tool reports.
pub const MAX_OUTPUT: usize = 20000;

/// Whether some prefix of `s` is exactly `n` bytes of UTF-8.
pub open spec fn has_boundary(s: Seq<char>, n: int) -> bool {
    exists|k: int| 0 <= k <= s.len() && #[trigger] utf8_bytes(s.take(k)) == n
}

/// Whether `v` is the JSON object the shell tool answers with.
pub open spec fn shell_json(v: JsonValue, stdout: Seq<char>, stderr: Seq<char>, exit_code: i32) -> bool {
    match v {
        JsonValue::Object(ms) => {
            &&& ms@.len() == 3
            &&& ms@[0].0@ == "exit_code"@
            &&& ms@[0].1 == JsonValue::Number(ms@[0].1->Number_0)
            &&& ms@[0].1->Number_0@ == signed_decimal(exit_code as int)
            &&& ms@[1].0@ == "stderr"@
            &&& ms@[1].1 == JsonValue::Str(ms@[1].1->Str_0)
            &&& ms@[1].1->Str_0@ == stderr
            &&& ms@[2].0@ == "stdout"@
            &&& ms@[2].1 == JsonValue::Str(ms@[2].1->Str_0)
            &&& ms@[2].1->Str_0@ == stdout
        },
        _ => false,
    }
}

/// Whether `r` is what the tool reports for the output `s`: `s` itself when
/// it is at most `MAX_OUTPUT` bytes, else its first `MAX_OUTPUT` bytes and
/// `[truncated]` on a line of its own.
pub open spec fn clipped(s: Seq<char>, r: Seq<char>) -> bool {
    if utf8_bytes(s) <= MAX_OUTPUT {
        r == s
    } else {
        exists|k: int| 0 <= k <= s.len() && #[trigger] utf8_bytes(s.take(k)) == MAX_OUTPUT
            && r == s.take(k) + "\n[truncated]"@
    }
}

/// The output `s` as the tool reports it (see `clipped`).
pub fn clip_output(s: &str) -> (r: String)
    requires
        utf8_bytes(s@) <= MAX_OUTPUT || has_boundary(s@, MAX_OUTPUT as int),
    ensures
        clipped(s@, r@),
{
    let cs = chars_of(s);
    let mut bytes: usize = 0;
    let mut k: usize = 0;
    while k < cs.len() && bytes < MAX_OUTPUT
        invariant
            k <= cs.len(),
            cs@ == s@,
            bytes == utf8_bytes(cs@.take(k as int)),
            bytes <= MAX_OUTPUT + 4,
            k > 0 ==> utf8_bytes(cs@.take(k - 1)) < MAX_OUTPUT,
        decreases cs.len() - k,
    {
        assert(cs@.take(k + 1).drop_last() =~= cs@.take(k as int));
        bytes = bytes + char_utf8_len(cs[k]);
        k = k + 1;
    }
    if k == cs.len() && bytes <= MAX_OUTPUT {
        assert(cs@.take(k as int) =~= cs@);
        return string_of(&cs, 0, k);
    }
    proof {
        assert(utf8_bytes(s@) > MAX_OUTPUT) by {
            assert(cs@.take(cs.len() as int) =~= cs@);
            if k < cs.len() {
                lemma_bytes_strict(cs@, k as int, cs.len() as int);
            }
        }
        let w = choose|w: int| 0 <= w <= s@.len() && #[trigger] utf8_bytes(s@.take(w)) == MAX_OUTPUT;
        if w < k {
            lemma_bytes_strict(cs@, w, (k - 1) as int);
        } else if w > k {
            lemma_bytes_strict(cs@, k as int, w);
        }
        assert(w == k);
    }
    let mut r = string_of(&cs, 0, k);
    append_str(&mut r, "\n[truncated]");
    assert(cs@.subrange(0, k as int) =~= cs@.take(k as int));
    r
}

impl Shell {
    /// The command line of the tool's JSON arguments.
    pub fn command_of(args: &JsonValue) -> (r: Result<String, ToolError>)
        ensures
            match str_of(get_spec(*args, "command"@)) {
                None => r matches Err(ToolError::InvalidArgs(m)) && m@ == "missing required field: command"@,
                Some(c) => r matches Ok(command) && command@ == c,
            },
    {
        match str_field(args, "command") {
            Some(c) => Ok(c),
            None => Err(ToolError::InvalidArgs("missing required field: command".to_owned())),
        }
    }

    /// The search the tool makes itself for `command` instead of running
    /// it: one when the command line is one plain `grep` or `rg` command
    /// that the grep tool takes.
    pub fn grep_plan(command: &str) -> (r: Option<GrepRequest>)
        ensures
            match simple_command_spec(command@) {
                None => r is None,
                Some(words) => match grep_command_spec(words) {
                    None => r is None,
                    Some((pattern, path, recursive, case_insensitive)) => r matches Some(q) && q.pattern@ == pattern
                        && q.path@ == path && q.recursive == recursive && q.case_insensitive == case_insensitive
                        && q.context_lines == 0 && q.max_matches == 500,
                },
            },
    {
        match parse_simple_command(command) {
            Some(words) => Grep::shell_request(&words),
            None => None,
        }
    }

    /// The tool's answer for a finished command: its output streams, each
    /// clipped (see `clipped`), and its exit code.
    pub fn output_text(stdout: &str, stderr: &str, exit_code: i32) -> (r: String)
        requires
            utf8_bytes(stdout@) <= MAX_OUTPUT || has_boundary(stdout@, MAX_OUTPUT as int),
            utf8_bytes(stderr@) <= MAX_OUTPUT || has_boundary(stderr@, MAX_OUTPUT as int),
        ensures
            exists|v: JsonValue, out: Seq<char>, err: Seq<char>| #![trigger shell_json(v, out, err, exit_code)]
                clipped(stdout@, out) && clipped(stderr@, err) && shell_json(v, out, err, exit_code)
                && r@ == json_compact(v),
    {
        let out = clip_output(stdout);
        let err = clip_output(stderr);
        let mut members: Vec<(String, JsonValue)> = Vec::new();
        members.push(("exit_code".to_owned(), JsonValue::Number(decimal_i64(exit_code as i64))));
        let ghost (ov, ev) = (out@, err@);
        members.push(("stderr".to_owned(), JsonValue::Str(err)));
        members.push(("stdout".to_owned(), JsonValue::Str(out)));
        let v = JsonValue::Object(members);
        assert(shell_json(v, ov, ev, exit_code));
        compact_text(&v)
    }
}

} // verus!
