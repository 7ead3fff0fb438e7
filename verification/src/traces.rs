//! Session traces: the header and the ordered event records of a session,
//! as they are kept in memory and checked when read back. Writing and
//! reading the JSONL files is the host's part.

use vstd::prelude::*;
use vstd::arithmetic::power::{lemma_pow_positive, pow};
use vstd::arithmetic::div_mod::lemma_div_denominator;
use crate::json::JsonValue;
use crate::record::{now_micros, time_ordered_id};
use crate::text::{append_str, chars_of, eq_str, push_char};

verus! {

/// The API family of a model provider.
#[derive(Debug, Clone, Copy, PartialEq, Eq, Structural)]
pub enum ProviderType {
    OpenAiResponses,
    OpenAiChatCompletions,
    AnthropicMessages,
}

/// What a trace records of the model.
#[derive(Debug, Clone, Copy, PartialEq, Eq, Structural)]
pub struct ModelInfo {
    pub provider_type: ProviderType,
}

impl ModelInfo {
    pub fn new(provider_type: ProviderType) -> (r: ModelInfo)
        ensures
            r.provider_type == provider_type,
    {
        ModelInfo { provider_type }
    }
}

/// Data a tool returned; only text for now.
#[derive(Debug)]
pub enum ToolData {
    Text(String),
}

/// Whether a tool call was allowed.
#[derive(Debug, Clone, Copy, PartialEq, Eq, Structural)]
pub enum ToolDecision {
    Approved,
    Denied,
}

/// How a tool call ended.
#[derive(Debug, Clone, Copy, PartialEq, Eq, Structural)]
pub enum ToolCallStatus {
    Success,
    Denied,
    Error,
}

/// Who allowed or refused a tool call.
#[derive(Debug, Clone, Copy, PartialEq, Eq, Structural)]
pub enum AuthorizationSource {
    User,
    Policy,
}

/// Something the user or a tool handed to the model.
#[derive(Debug)]
pub enum InputContent {
    UserMessage(String),
    ToolCallResult { tool_call_id: String, content: Vec<ToolData> },
}

/// Something the model produced.
#[derive(Debug)]
pub enum AssistantContent {
    Text(String),
    ToolCallRequest { tool_call_id: String, tool_name: String, args: JsonValue },
}

/// How a response of the model ended.
#[derive(Debug, Clone, Copy, PartialEq, Eq, Structural)]
pub enum AssistantStatus {
    Completed,
    Interrupted,
    Failed,
}

/// A harness-level event.
#[derive(Debug)]
#[allow(inconsistent_fields)]
pub enum Event {
    InputMessage { content: Vec<InputContent> },
    /// A result the model emitted.
    AssistantMessage { status: AssistantStatus, content: Vec<AssistantContent>, provider_metadata: Option<JsonValue> },
    /// A tool call allowed or refused by the user or a policy.
    ToolAuthorization {
        tool_call_id: String,
        decision: ToolDecision,
        source: AuthorizationSource,
        reason: Option<String>,
    },
    /// The result of a tool call.
    ToolCallResult { tool_call_id: String, status: ToolCallStatus, content: Vec<ToolData> },
}

/// An event as it is recorded: its id, its logical parent, its place in
/// the trace (from 1), when it happened (microseconds since the Unix
/// epoch) and the event.
#[derive(Debug)]
pub struct EventRecord {
    pub id: u128,
    pub parent_id: Option<u128>,
    pub seq: u64,
    pub timestamp: i64,
    pub event: Event,
}

impl EventRecord {
    /// Records `event` now, under a fresh time-ordered id.
    pub fn new(parent_id: Option<u128>, seq: u64, event: Event) -> (r: EventRecord)
        ensures
            r.parent_id == parent_id,
            r.seq == seq,
            r.event == event,
    {
        let timestamp = now_micros();
        let id = time_ordered_id();
        EventRecord { id, parent_id, seq, timestamp, event }
    }

    /// The id of the record.
    pub fn id(&self) -> (r: u128)
        ensures
            r == self.id,
    {
        self.id
    }
}

/// The type a trace's first record declares.
pub fn session_record_type() -> (r: String)
    ensures
        r@ == "session"@,
{
    "session".to_owned()
}

/// The metadata a trace starts with.
#[derive(Debug)]
pub struct SessionHeader {
    pub record_type: String,
    pub version: u32,
    pub session_id: u128,
    pub created_at: i64,
    pub cwd: String,
    pub model: ModelInfo,
}

impl SessionHeader {
    /// The header of a new trace, created now, at version 1.
    pub fn new(session_id: u128, cwd: String, model: ModelInfo) -> (r: SessionHeader)
        ensures
            r.record_type@ == "session"@,
            r.version == 1,
            r.session_id == session_id,
            r.cwd == cwd,
            r.model == model,
    {
        SessionHeader {
            record_type: session_record_type(),
            version: 1,
            session_id,
            created_at: now_micros(),
            cwd,
            model,
        }
    }

    /// The id shared by the trace's header and its file.
    pub fn session_id(&self) -> (r: u128)
        ensures
            r == self.session_id,
    {
        self.session_id
    }
}

/// Whether the records `events` are numbered 1, 2, ... in order.
pub open spec fn numbered(events: Seq<EventRecord>) -> bool {
    forall|i: int| 0 <= i < events.len() ==> (#[trigger] events[i]).seq == i + 1
}

/// A session's trace in memory: its header and its events in the order
/// they were appended.
#[derive(Debug)]
pub struct SessionRecord {
    header: SessionHeader,
    events: Vec<EventRecord>,
}

impl SessionRecord {
    pub closed spec fn header_spec(&self) -> SessionHeader {
        self.header
    }

    pub closed spec fn events_spec(&self) -> Seq<EventRecord> {
        self.events@
    }

    /// An empty trace for a session.
    pub fn new(session_id: u128, cwd: String, model: ModelInfo) -> (r: SessionRecord)
        ensures
            r.header_spec().record_type@ == "session"@,
            r.header_spec().version == 1,
            r.header_spec().session_id == session_id,
            r.header_spec().cwd == cwd,
            r.header_spec().model == model,
            r.events_spec().len() == 0,
    {
        SessionRecord { header: SessionHeader::new(session_id, cwd, model), events: Vec::new() }
    }

    /// A trace made of a header and events read back.
    pub fn from_parts(header: SessionHeader, events: Vec<EventRecord>) -> (r: SessionRecord)
        ensures
            r.header_spec() == header,
            r.events_spec() == events@,
    {
        SessionRecord { header, events }
    }

    /// Appends `event` under the logical parent `parent_id`, numbered after
    /// the events before it; returns its id.
    pub fn add_event(&mut self, parent_id: Option<u128>, event: Event) -> (r: u128)
        requires
            old(self).events_spec().len() < u64::MAX,
        ensures
            final(self).header_spec() == old(self).header_spec(),
            final(self).events_spec().len() == old(self).events_spec().len() + 1,
            final(self).events_spec().drop_last() == old(self).events_spec(),
            final(self).events_spec().last().parent_id == parent_id,
            final(self).events_spec().last().seq == old(self).events_spec().len() + 1,
            final(self).events_spec().last().event == event,
            final(self).events_spec().last().id == r,
            numbered(old(self).events_spec()) ==> numbered(final(self).events_spec()),
    {
        let seq = self.events.len() as u64 + 1;
        let record = EventRecord::new(parent_id, seq, event);
        let id = record.id();
        let ghost before = self.events@;
        self.events.push(record);
        assert(self.events@.drop_last() =~= before);
        id
    }

    /// Appends `event` after the last event appended, for linear replay.
    pub fn append_event(&mut self, event: Event) -> (r: u128)
        requires
            old(self).events_spec().len() < u64::MAX,
        ensures
            final(self).header_spec() == old(self).header_spec(),
            final(self).events_spec().drop_last() == old(self).events_spec(),
            final(self).events_spec().last().parent_id == if old(self).events_spec().len() == 0 {
                None
            } else {
                Some(old(self).events_spec().last().id)
            },
            final(self).events_spec().last().seq == old(self).events_spec().len() + 1,
            final(self).events_spec().last().event == event,
            final(self).events_spec().last().id == r,
            numbered(old(self).events_spec()) ==> numbered(final(self).events_spec()),
    {
        let parent = if self.events.len() == 0 {
            None
        } else {
            Some(self.events[self.events.len() - 1].id())
        };
        self.add_event(parent, event)
    }

    /// The header written as the trace's first record.
    pub fn header(&self) -> (r: &SessionHeader)
        ensures
            *r == self.header_spec(),
    {
        &self.header
    }

    /// The events in the order they were appended.
    pub fn events(&self) -> (r: &Vec<EventRecord>)
        ensures
            r@ == self.events_spec(),
    {
        &self.events
    }
}

/// Why a trace could not be found or read.
#[derive(Debug)]
pub enum TraceFileError {
    /// Neither `XDG_CONFIG_HOME` nor `HOME` is set.
    ConfigHomeUnavailable,
    /// The trace file has no header.
    EmptyTrace(String),
    /// The trace file's header is not a session header.
    InvalidTrace(String),
    /// Reading or writing failed.
    Io(String),
    /// A record is not valid JSON for its type.
    Json(String),
}

/// The lowercase hexadecimal digit for `n` (below 16).
pub open spec fn hex_digit(n: int) -> char {
    "0123456789abcdef"@[n]
}

/// The `k`-th hexadecimal digit of `id`, from the most significant.
pub open spec fn nibble(id: u128, k: int) -> int {
    (id as int / pow(16, (31 - k) as nat)) % 16
}

/// How many of the first `i` characters of a uuid's text are dashes.
pub open spec fn dashes_before(i: int) -> int {
    if i <= 8 { 0 } else if i <= 13 { 1 } else if i <= 18 { 2 } else if i <= 23 { 3 } else { 4 }
}

/// The hyphenated lowercase text of the uuid `id`:
/// `xxxxxxxx-xxxx-xxxx-xxxx-xxxxxxxxxxxx`, most significant digit first.
pub open spec fn uuid_text(id: u128) -> Seq<char> {
    Seq::new(
        36,
        |i: int| if i == 8 || i == 13 || i == 18 || i == 23 { '-' } else { hex_digit(nibble(id, i - dashes_before(i))) },
    )
}

/// The text of the uuid `id`, as `Uuid::to_string` prints it: hyphenated
/// lowercase hexadecimal, most significant digit first.
pub(crate) fn uuid_string(id: u128) -> (r: String)
    ensures
        r@ == uuid_text(id),
{
    let hex = chars_of("0123456789abcdef");
    proof {
        reveal_strlit("0123456789abcdef");
    }
    let mut ds: Vec<u8> = Vec::new();
    let mut v: u128 = id;
    let mut j: usize = 0;
    proof {
        reveal(pow);
        assert(pow(16, 0) == 1);
    }
    while j < 32
        invariant
            j <= 32,
            ds@.len() == j,
            v as int == id as int / pow(16, j as nat),
            forall|q: int| 0 <= q < j ==> #[trigger] ds@[q] as int == nibble(id, 31 - q) && ds@[q] < 16,
        decreases 32 - j,
    {
        proof {
            reveal(pow);
            lemma_pow_positive(16, j as nat);
            lemma_div_denominator(id as int, pow(16, j as nat), 16);
            assert(pow(16, (j + 1) as nat) == 16 * pow(16, j as nat));
            assert(pow(16, j as nat) * 16 == 16 * pow(16, j as nat)) by (nonlinear_arith);
            assert(nibble(id, 31 - j as int) == (id as int / pow(16, j as nat)) % 16);
        }
        ds.push((v % 16) as u8);
        v = v / 16;
        j = j + 1;
    }
    let mut out = String::new();
    let mut i: usize = 0;
    while i < 36
        invariant
            i <= 36,
            ds@.len() == 32,
            hex@ == "0123456789abcdef"@,
            hex@.len() == 16,
            forall|q: int| 0 <= q < 32 ==> #[trigger] ds@[q] as int == nibble(id, 31 - q) && ds@[q] < 16,
            out@ == uuid_text(id).take(i as int),
        decreases 36 - i,
    {
        let ghost before = out@;
        if i == 8 || i == 13 || i == 18 || i == 23 {
            push_char(&mut out, '-');
        } else {
            let k: usize = if i <= 8 { i } else if i <= 13 { i - 1 } else if i <= 18 { i - 2 } else if i <= 23 { i - 3 } else { i - 4 };
            assert(k == i - dashes_before(i as int));
            let d = ds[31 - k];
            assert(d as int == nibble(id, k as int));
            push_char(&mut out, hex[d as usize]);
        }
        assert(out@ =~= uuid_text(id).take(i + 1));
        i = i + 1;
    }
    assert(uuid_text(id).take(36) =~= uuid_text(id));
    out
}

/// `base` with the relative path `rel` pushed onto it, as `PathBuf::push`
/// does: a separator between them unless `base` is empty or already ends
/// with one.
pub open spec fn join_path(base: Seq<char>, rel: Seq<char>) -> Seq<char> {
    if base.len() == 0 {
        rel
    } else if base.last() == '/' {
        base + rel
    } else {
        base + seq!['/'] + rel
    }
}

fn join(base: &str, rel: &str) -> (r: String)
    ensures
        r@ == join_path(base@, rel@),
{
    let cs = chars_of(base);
    let mut s = String::new();
    append_str(&mut s, base);
    if cs.len() > 0 && cs[cs.len() - 1] != '/' {
        push_char(&mut s, '/');
    }
    append_str(&mut s, rel);
    s
}

/// The directory the traces of sessions live in: `auger/sessions` under
/// `XDG_CONFIG_HOME` when it is set and not empty, else `.auger/sessions`
/// under `HOME`.
pub open spec fn sessions_dir(xdg: Option<Seq<char>>, home: Option<Seq<char>>) -> Option<Seq<char>> {
    match xdg {
        Some(x) if x.len() > 0 => Some(join_path(x, "auger/sessions"@)),
        _ => match home {
            Some(h) => Some(join_path(h, ".auger/sessions"@)),
            None => None,
        },
    }
}

/// Where the trace of the session `session_id` is kept, given the values
/// of `XDG_CONFIG_HOME` and `HOME`: `<sessions>/<id>/<id>.jsonl`.
pub fn session_trace_path(session_id: u128, xdg: Option<&str>, home: Option<&str>) -> (r: Result<String, TraceFileError>)
    ensures
        match sessions_dir(
            match xdg { Some(x) => Some(x@), None => None },
            match home { Some(h) => Some(h@), None => None },
        ) {
            None => r matches Err(TraceFileError::ConfigHomeUnavailable),
            Some(dir) => r matches Ok(path) && path@ == join_path(
                join_path(dir, uuid_text(session_id)),
                uuid_text(session_id) + ".jsonl"@,
            ),
        },
{
    let dir = match xdg {
        Some(x) if chars_of(x).len() > 0 => join(x, "auger/sessions"),
        _ => match home {
            Some(h) => join(h, ".auger/sessions"),
            None => {
                return Err(TraceFileError::ConfigHomeUnavailable);
            },
        },
    };
    let id = uuid_string(session_id);
    let with_id = join(dir.as_str(), id.as_str());
    let mut file = id.clone();
    append_str(&mut file, ".jsonl");
    Ok(join(with_id.as_str(), file.as_str()))
}

/// Reads traces back.
pub struct TraceReader;

impl TraceReader {
    /// Whether a line of a trace file holds a record; empty lines are
    /// skipped.
    pub fn is_record_line(line: &str) -> (r: bool)
        ensures
            r == (line@.len() > 0),
    {
        chars_of(line).len() > 0
    }

    /// The trace read from the file at `path`: its header (none when the
    /// file has no first line) and its events. A file without a header is
    /// empty; one whose header is not a session header is invalid.
    pub fn assemble(path: &str, header: Option<SessionHeader>, events: Vec<EventRecord>) -> (r: Result<SessionRecord, TraceFileError>)
        ensures
            match header {
                None => r matches Err(TraceFileError::EmptyTrace(p)) && p@ == path@,
                Some(h) => if h.record_type@ == "session"@ {
                    r matches Ok(record) && record.header_spec() == h && record.events_spec() == events@
                } else {
                    r matches Err(TraceFileError::InvalidTrace(p)) && p@ == path@
                },
            },
    {
        match header {
            None => Err(TraceFileError::EmptyTrace(path.to_owned())),
            Some(h) => {
                if eq_str(&chars_of(h.record_type.as_str()), "session") {
                    Ok(SessionRecord::from_parts(h, events))
                } else {
                    Err(TraceFileError::InvalidTrace(path.to_owned()))
                }
            },
        }
    }
}

} // verus!
