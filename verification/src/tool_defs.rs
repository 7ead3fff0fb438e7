//! How the built-in tools present themselves to the model: a name, a
//! description and a JSON schema of the arguments.

use vstd::prelude::*;
use crate::json::{JsonValue, json_parse, parse_json};
use crate::provider::ToolDefinition;
use crate::text::opt_view;
use crate::tools::{Dummy, Grep, ListFiles, Shell, TodoList};

verus! {

/// A tool's name and what it is for.
#[derive(Debug)]
pub struct ToolDetails {
    pub name: String,
    pub description: String,
}

/// The text-fetching tool: a page's visible text.
pub struct WebFetchText;

/// The fetching tool: a page as served.
pub struct WebFetch;

pub const GREP_DESCRIPTION: &'static str = "Search for a regex pattern in a file or directory. Returns matches in path:line:content format. Context lines use path-line-content format.";

pub const GREP_PARAMETERS: &'static str = r#"{"type":"object","properties":{"pattern":{"type":"string","description":"Regex pattern to search for"},"path":{"type":"string","description":"Absolute path to a file or directory to search"},"recursive":{"type":"boolean","description":"When path is a directory, search recursively. Default: true"},"case_insensitive":{"type":"boolean","description":"Case-insensitive matching. Default: false"},"context_lines":{"type":"integer","description":"Lines of context before and after each match. Default: 0","minimum":0},"max_matches":{"type":"integer","description":"Maximum number of matches before truncating. Default: 500","minimum":1}},"required":["pattern","path"]}"#;

pub const LIST_FILES_DESCRIPTION: &'static str = "List files and directories at a given path. Non-recursive by default; set recursive=true to walk the full tree. Respects .gitignore.";

pub const LIST_FILES_PARAMETERS: &'static str = r#"{"type":"object","properties":{"path":{"type":"string","description":"Absolute path to the directory to list"},"recursive":{"type":"boolean","description":"If true, list all files recursively","default":false}},"required":["path"]}"#;

pub const SHELL_DESCRIPTION: &'static str = "Run a shell command and return its stdout, stderr, and exit code. Use for builds, tests, git, find, etc. Avoid interactive commands.";

pub const SHELL_PARAMETERS: &'static str = r#"{"type":"object","properties":{"command":{"type":"string","description":"The shell command to execute"}},"required":["command"]}"#;

pub const TODO_DESCRIPTION: &'static str = "Manage a shared todo list to track tasks. Use 'add' to create items, 'update' to change title/status, 'remove' to delete, and 'list' to view all items. Status values: pending, in_progress, done.";

pub const TODO_PARAMETERS: &'static str = r#"{"type":"object","properties":{"action":{"type":"string","enum":["add","update","remove","list"],"description":"The action to perform"},"id":{"type":"integer","description":"Item ID (required for update and remove)"},"title":{"type":"string","description":"Item title (required for add, optional for update)"},"status":{"type":"string","enum":["pending","in_progress","done"],"description":"Item status (optional for add, defaults to pending)"}},"required":["action"]}"#;

pub const DUMMY_DESCRIPTION: &'static str = "Test tool. Echoes back its arguments. Use to verify tool call routing works.";

pub const DUMMY_PARAMETERS: &'static str = r#"{"type":"object","properties":{"message":{"type":"string","description":"Any string to echo back"}},"required":["message"]}"#;

pub const WEB_FETCH_DESCRIPTION: &'static str = "Fetch a URL and return its content as text. Useful for reading documentation, APIs, or web pages. HTML is returned as-is; prefer URLs that serve plain text or JSON when possible. If the response body exceeds the inline limit the full content is saved to a temporary file and the path is returned instead.";

pub const WEB_FETCH_TEXT_DESCRIPTION: &'static str = "Fetch a URL and return only the visible text content, stripping all HTML tags, scripts, and styles. Prefer this over web_fetch when you want readable prose rather than raw markup. If the extracted text exceeds the inline limit the full content is saved to a temporary file and the path is returned.";

pub const URL_PARAMETERS: &'static str = r#"{"type":"object","properties":{"url":{"type":"string","description":"The URL to fetch"}},"required":["url"]}"#;

/// Details from a name and a description.
fn details_of(name: &str, description: &str) -> (r: ToolDetails)
    ensures
        r.name@ == name@,
        r.description@ == description@,
{
    ToolDetails { name: name.to_owned(), description: description.to_owned() }
}

impl Grep {
    pub fn details() -> (r: ToolDetails)
        ensures
            r.name@ == "grep"@,
            r.description@ == GREP_DESCRIPTION@,
    {
        details_of("grep", GREP_DESCRIPTION)
    }

    /// The schema of the arguments, read from `GREP_PARAMETERS`.
    pub fn parameters() -> (r: Option<JsonValue>)
        ensures
            r == json_parse(GREP_PARAMETERS@),
    {
        parse_json(GREP_PARAMETERS)
    }
}

impl ListFiles {
    pub fn details() -> (r: ToolDetails)
        ensures
            r.name@ == "list_files"@,
            r.description@ == LIST_FILES_DESCRIPTION@,
    {
        details_of("list_files", LIST_FILES_DESCRIPTION)
    }

    /// The schema of the arguments, read from `LIST_FILES_PARAMETERS`.
    pub fn parameters() -> (r: Option<JsonValue>)
        ensures
            r == json_parse(LIST_FILES_PARAMETERS@),
    {
        parse_json(LIST_FILES_PARAMETERS)
    }
}

impl Shell {
    pub fn details() -> (r: ToolDetails)
        ensures
            r.name@ == "shell"@,
            r.description@ == SHELL_DESCRIPTION@,
    {
        details_of("shell", SHELL_DESCRIPTION)
    }

    /// The schema of the arguments, read from `SHELL_PARAMETERS`.
    pub fn parameters() -> (r: Option<JsonValue>)
        ensures
            r == json_parse(SHELL_PARAMETERS@),
    {
        parse_json(SHELL_PARAMETERS)
    }
}

impl TodoList {
    pub fn details() -> (r: ToolDetails)
        ensures
            r.name@ == "todo_list"@,
            r.description@ == TODO_DESCRIPTION@,
    {
        details_of("todo_list", TODO_DESCRIPTION)
    }

    /// The schema of the arguments, read from `TODO_PARAMETERS`.
    pub fn parameters() -> (r: Option<JsonValue>)
        ensures
            r == json_parse(TODO_PARAMETERS@),
    {
        parse_json(TODO_PARAMETERS)
    }
}

impl Dummy {
    pub fn details() -> (r: ToolDetails)
        ensures
            r.name@ == "dummy"@,
            r.description@ == DUMMY_DESCRIPTION@,
    {
        details_of("dummy", DUMMY_DESCRIPTION)
    }

    /// The schema of the arguments, read from `DUMMY_PARAMETERS`.
    pub fn parameters() -> (r: Option<JsonValue>)
        ensures
            r == json_parse(DUMMY_PARAMETERS@),
    {
        parse_json(DUMMY_PARAMETERS)
    }
}

impl WebFetch {
    pub fn details() -> (r: ToolDetails)
        ensures
            r.name@ == "web_fetch"@,
            r.description@ == WEB_FETCH_DESCRIPTION@,
    {
        details_of("web_fetch", WEB_FETCH_DESCRIPTION)
    }

    /// The schema of the arguments, read from `URL_PARAMETERS`.
    pub fn parameters() -> (r: Option<JsonValue>)
        ensures
            r == json_parse(URL_PARAMETERS@),
    {
        parse_json(URL_PARAMETERS)
    }
}

impl WebFetchText {
    pub fn details() -> (r: ToolDetails)
        ensures
            r.name@ == "web_fetch_text"@,
            r.description@ == WEB_FETCH_TEXT_DESCRIPTION@,
    {
        details_of("web_fetch_text", WEB_FETCH_TEXT_DESCRIPTION)
    }

    /// The schema of the arguments, read from `URL_PARAMETERS`.
    pub fn parameters() -> (r: Option<JsonValue>)
        ensures
            r == json_parse(URL_PARAMETERS@),
    {
        parse_json(URL_PARAMETERS)
    }
}

/// The definition the model gets of a tool: its details and the schema of
/// its arguments.
pub fn definition(details: ToolDetails, parameters: JsonValue) -> (r: ToolDefinition)
    ensures
        r.name == details.name,
        r.description == Some(details.description),
        r.parameters == parameters,
{
    ToolDefinition { name: details.name, description: Some(details.description), parameters }
}

/// A definition as values: name, description and argument schema.
pub open spec fn def_view(d: ToolDefinition) -> (Seq<char>, Option<Seq<char>>, JsonValue) {
    (d.name@, opt_view(d.description), d.parameters)
}

/// Definitions as values.
pub open spec fn defs_view(ds: Seq<ToolDefinition>) -> Seq<(Seq<char>, Option<Seq<char>>, JsonValue)> {
    ds.map_values(|d: ToolDefinition| def_view(d))
}

/// The definition of a tool named `name`, described by `description`, whose
/// schema is the JSON text `schema`: none when the schema does not read as
/// JSON.
pub open spec fn entry(name: Seq<char>, description: Seq<char>, schema: Seq<char>) -> Seq<(Seq<char>, Option<Seq<char>>, JsonValue)> {
    match json_parse(schema) {
        Some(p) => seq![(name, Some(description), p)],
        None => seq![],
    }
}

/// Adds the tool's definition to `out` when its schema reads as JSON.
fn push_definition(out: &mut Vec<ToolDefinition>, details: ToolDetails, parameters: Option<JsonValue>)
    ensures
        defs_view(final(out)@) == defs_view(old(out)@) + match parameters {
            Some(p) => seq![(details.name@, Some(details.description@), p)],
            None => seq![],
        },
{
    let ghost before = out@;
    match parameters {
        Some(p) => {
            let d = definition(details, p);
            out.push(d);
            assert(out@ =~= before.push(d));
            assert(defs_view(out@) =~= defs_view(before).push(def_view(d)));
        },
        None => {
            assert(defs_view(out@) =~= defs_view(before) + Seq::empty());
        },
    }
}

/// The definitions of the built-in tools, in a fixed order: grep,
/// list_files, shell, todo_list, dummy, web_fetch, web_fetch_text; a tool
/// whose schema does not read as JSON is left out.
pub fn builtin_definitions() -> (r: Vec<ToolDefinition>)
    ensures
        defs_view(r@) == entry("grep"@, GREP_DESCRIPTION@, GREP_PARAMETERS@)
            + entry("list_files"@, LIST_FILES_DESCRIPTION@, LIST_FILES_PARAMETERS@)
            + entry("shell"@, SHELL_DESCRIPTION@, SHELL_PARAMETERS@)
            + entry("todo_list"@, TODO_DESCRIPTION@, TODO_PARAMETERS@)
            + entry("dummy"@, DUMMY_DESCRIPTION@, DUMMY_PARAMETERS@)
            + entry("web_fetch"@, WEB_FETCH_DESCRIPTION@, URL_PARAMETERS@)
            + entry("web_fetch_text"@, WEB_FETCH_TEXT_DESCRIPTION@, URL_PARAMETERS@),
{
    let mut out: Vec<ToolDefinition> = Vec::new();
    assert(defs_view(out@) =~= Seq::empty());
    push_definition(&mut out, Grep::details(), Grep::parameters());
    push_definition(&mut out, ListFiles::details(), ListFiles::parameters());
    push_definition(&mut out, Shell::details(), Shell::parameters());
    push_definition(&mut out, TodoList::details(), TodoList::parameters());
    push_definition(&mut out, Dummy::details(), Dummy::parameters());
    push_definition(&mut out, WebFetch::details(), WebFetch::parameters());
    push_definition(&mut out, WebFetchText::details(), WebFetchText::parameters());
    out
}

} // verus!
