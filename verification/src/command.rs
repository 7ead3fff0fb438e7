//! Slash commands typed into the chat input.
//!
//! Parsing is pure: [`parse`] turns the input into a [`Command`], and the
//! caller acts on it.

use vstd::prelude::*;
use crate::text::{is_ws, opt_view, append_str, push_char, chars_eq_str, chars_of, find_ws, find_ws_from, lemma_find_ws_bounds, lemma_trim_idempotent, string_of, trim, trim_bounds};

verus! {

/// A recognised slash command. Anything not starting with `/` is an ordinary
/// message and never reaches this type.
#[derive(Debug, Clone, PartialEq)]
#[allow(inconsistent_fields)]
pub enum Command {
    /// Start a new session, optionally with a specific model.
    New { model: Option<String> },
    /// Return to the session list.
    Sessions,
    /// Show the current model, or start a new session on a different one.
    Model { name: Option<String> },
    /// List the available commands.
    Help,
    /// Exit the TUI.
    Quit,
    /// Typed something starting with `/` that isn't a command.
    Unknown { name: String },
}

/// The mathematical value of a [`Command`].
#[allow(inconsistent_fields)]
pub enum CommandView {
    New { model: Option<Seq<char>> },
    Sessions,
    Model { name: Option<Seq<char>> },
    Help,
    Quit,
    Unknown { name: Seq<char> },
}

impl View for Command {
    type V = CommandView;

    open spec fn view(&self) -> CommandView {
        match self {
            Command::New { model } => CommandView::New { model: opt_view(*model) },
            Command::Sessions => CommandView::Sessions,
            Command::Model { name } => CommandView::Model { name: opt_view(*name) },
            Command::Help => CommandView::Help,
            Command::Quit => CommandView::Quit,
            Command::Unknown { name } => CommandView::Unknown { name: name@ },
        }
    }
}

/// A listed command: its usage and its help text.
pub struct CommandEntry {
    pub usage: &'static str,
    pub description: &'static str,
}

/// Every command with its help text, in the order `/help` lists them.
pub open spec fn spec_commands() -> Seq<(Seq<char>, Seq<char>)> {
    seq![
        ("/new [model]"@, "start a new session"@),
        ("/sessions"@, "back to the session list"@),
        ("/model [name]"@, "show the model, or start a session on another"@),
        ("/help"@, "show this list"@),
        ("/quit"@, "exit auger"@),
    ]
}

pub open spec fn entries_view(v: Seq<CommandEntry>) -> Seq<(Seq<char>, Seq<char>)> {
    v.map_values(|e: CommandEntry| (e.usage@, e.description@))
}

/// Every command, with help text. Kept as data so `/help` cannot drift out
/// of sync with what [`parse`] accepts.
pub fn commands() -> (r: Vec<CommandEntry>)
    ensures
        entries_view(r@) == spec_commands(),
{
    let mut v: Vec<CommandEntry> = Vec::new();
    v.push(CommandEntry { usage: "/new [model]", description: "start a new session" });
    v.push(CommandEntry { usage: "/sessions", description: "back to the session list" });
    v.push(
        CommandEntry {
            usage: "/model [name]",
            description: "show the model, or start a session on another",
        },
    );
    v.push(CommandEntry { usage: "/help", description: "show this list" });
    v.push(CommandEntry { usage: "/quit", description: "exit auger" });
    assert(entries_view(v@) =~= spec_commands());
    v
}

/// The command named `name`, with the optional argument `arg`.
pub open spec fn command_named(name: Seq<char>, arg: Option<Seq<char>>) -> CommandView {
    if name == "new"@ {
        CommandView::New { model: arg }
    } else if name == "sessions"@ || name == "list"@ {
        CommandView::Sessions
    } else if name == "model"@ {
        CommandView::Model { name: arg }
    } else if name == "help"@ || name == "?"@ {
        CommandView::Help
    } else if name == "quit"@ || name == "exit"@ || name == "q"@ {
        CommandView::Quit
    } else {
        CommandView::Unknown { name }
    }
}

/// What `input` means as a slash command: `None` for an ordinary message
/// (including a bare `/`, which is still being typed). The name runs up to
/// the first whitespace; whatever follows it, trimmed, is the argument.
pub open spec fn spec_parse(input: Seq<char>) -> Option<CommandView> {
    let t = trim(input);
    if t.len() == 0 || t[0] != '/' || t.len() == 1 {
        None
    } else {
        let rest = t.drop_first();
        let k = find_ws_from(rest, 0);
        let name = rest.take(k);
        let arg = if k < rest.len() {
            let a = trim(rest.skip(k + 1));
            if a.len() > 0 {
                Some(a)
            } else {
                None
            }
        } else {
            None
        };
        Some(command_named(name, arg))
    }
}

/// Surrounding whitespace never changes what an input means: parsing
/// `input` and parsing its trimmed text give the same command.
pub proof fn lemma_parse_ignores_surrounding_whitespace(input: Seq<char>)
    ensures
        spec_parse(input) == spec_parse(trim(input)),
{
    lemma_trim_idempotent(input);
}

/// A slash and a bare name, with any whitespace around them, is the
/// command of that name with no argument.
pub proof fn lemma_parse_bare_name(input: Seq<char>, name: Seq<char>)
    requires
        trim(input) == seq!['/'] + name,
        name.len() > 0,
        forall|i: int| 0 <= i < name.len() ==> !is_ws(#[trigger] name[i]),
    ensures
        spec_parse(input) == Some(command_named(name, None)),
{
    let t = trim(input);
    assert(t[0] == '/');
    assert(t.drop_first() =~= name);
    lemma_find_ws_bounds(name, 0);
    assert(find_ws_from(name, 0) == name.len());
    assert(name.take(name.len() as int) =~= name);
}

/// Which names mean which command: `new`; `sessions` and `list` and no
/// other for the session list; `model`; `help` and `?` for the help;
/// `quit`, `exit` and `q`; any other name is unknown.
pub proof fn lemma_command_names(name: Seq<char>, arg: Option<Seq<char>>)
    ensures
        command_named(name, arg) is Sessions <==> name == "sessions"@ || name == "list"@,
        command_named(name, arg) is Help <==> name == "help"@ || name == "?"@,
        command_named(name, arg) is Quit <==> name == "quit"@ || name == "exit"@ || name == "q"@,
        command_named(name, arg) is New <==> name == "new"@,
        command_named(name, arg) is Model <==> name == "model"@,
        command_named(name, arg) is New ==> command_named(name, arg) == (CommandView::New { model: arg }),
        command_named(name, arg) is Model ==> command_named(name, arg) == (CommandView::Model { name: arg }),
        command_named(name, arg) is Unknown ==> command_named(name, arg) == (CommandView::Unknown { name }),
{
    reveal_strlit("new");
    reveal_strlit("sessions");
    reveal_strlit("list");
    reveal_strlit("model");
    reveal_strlit("help");
    reveal_strlit("?");
    reveal_strlit("quit");
    reveal_strlit("exit");
    reveal_strlit("q");
    assert("new"@.len() != "sessions"@.len());
    assert("new"@.len() != "list"@.len());
    assert("new"@.len() != "model"@.len());
    assert("new"@.len() != "help"@.len());
    assert("new"@.len() != "?"@.len());
    assert("new"@.len() != "quit"@.len());
    assert("new"@.len() != "exit"@.len());
    assert("new"@.len() != "q"@.len());
    assert("sessions"@.len() != "list"@.len());
    assert("sessions"@.len() != "model"@.len());
    assert("sessions"@.len() != "help"@.len());
    assert("sessions"@.len() != "?"@.len());
    assert("sessions"@.len() != "quit"@.len());
    assert("sessions"@.len() != "exit"@.len());
    assert("sessions"@.len() != "q"@.len());
    assert("list"@.len() != "model"@.len());
    assert("list"@[0] != "help"@[0]);
    assert("list"@.len() != "?"@.len());
    assert("list"@[0] != "quit"@[0]);
    assert("list"@[0] != "exit"@[0]);
    assert("list"@.len() != "q"@.len());
    assert("model"@.len() != "help"@.len());
    assert("model"@.len() != "?"@.len());
    assert("model"@.len() != "quit"@.len());
    assert("model"@.len() != "exit"@.len());
    assert("model"@.len() != "q"@.len());
    assert("help"@.len() != "?"@.len());
    assert("help"@[0] != "quit"@[0]);
    assert("help"@[0] != "exit"@[0]);
    assert("help"@.len() != "q"@.len());
    assert("?"@.len() != "quit"@.len());
    assert("?"@.len() != "exit"@.len());
    assert("?"@[0] != "q"@[0]);
    assert("quit"@[0] != "exit"@[0]);
    assert("quit"@.len() != "q"@.len());
    assert("exit"@.len() != "q"@.len());
}

/// `/help` and `/?` ask for the help, and `/sessions` and `/list` for the
/// session list, whatever whitespace surrounds them.
pub proof fn lemma_parse_help_and_sessions(input: Seq<char>)
    ensures
        trim(input) == "/help"@ || trim(input) == "/?"@ ==> spec_parse(input) == Some(CommandView::Help),
        trim(input) == "/sessions"@ || trim(input) == "/list"@ ==> spec_parse(input) == Some(CommandView::Sessions),
{
    reveal_strlit("/help");
    reveal_strlit("/?");
    reveal_strlit("/sessions");
    reveal_strlit("/list");
    reveal_strlit("help");
    reveal_strlit("?");
    reveal_strlit("sessions");
    reveal_strlit("list");
    if trim(input) == "/help"@ {
        assert("/help"@ =~= seq!['/'] + "help"@);
        lemma_parse_bare_name(input, "help"@);
        lemma_command_names("help"@, None);
    } else if trim(input) == "/?"@ {
        assert("/?"@ =~= seq!['/'] + "?"@);
        lemma_parse_bare_name(input, "?"@);
        lemma_command_names("?"@, None);
    }
    if trim(input) == "/sessions"@ {
        assert("/sessions"@ =~= seq!['/'] + "sessions"@);
        lemma_parse_bare_name(input, "sessions"@);
        lemma_command_names("sessions"@, None);
    } else if trim(input) == "/list"@ {
        assert("/list"@ =~= seq!['/'] + "list"@);
        lemma_parse_bare_name(input, "list"@);
        lemma_command_names("list"@, None);
    }
}

/// Parse input as a slash command. Returns `None` for ordinary messages.
#[verifier::rlimit(30)]
pub fn parse(input: &str) -> (r: Option<Command>)
    ensures
        match r {
            Some(c) => spec_parse(input@) == Some(c@),
            None => spec_parse(input@).is_none(),
        },
{
    let v = chars_of(input);
    let (lo, hi) = trim_bounds(&v, 0, v.len());
    assert(v@.subrange(0, v@.len() as int) =~= v@);
    let ghost t = v@.subrange(lo as int, hi as int);
    if hi - lo == 0 || v[lo] != '/' || hi - lo == 1 {
        return None;
    }
    let start = lo + 1;
    let ghost rest = t.drop_first();
    assert(rest =~= v@.subrange(start as int, hi as int));
    let k = find_ws(&v, start, hi);
    proof {
        lemma_find_ws_bounds(rest, 0);
    }
    assert(v@.subrange(start as int, k as int) =~= rest.take(k - start));
    let arg: Option<String> = if k < hi {
        let (alo, ahi) = trim_bounds(&v, k + 1, hi);
        assert(v@.subrange(k + 1, hi as int) =~= rest.skip(k - start + 1));
        if ahi - alo > 0 {
            Some(string_of(&v, alo, ahi))
        } else {
            None
        }
    } else {
        None
    };
    let ghost name = rest.take(k - start);
    let ghost argv = opt_view(arg);
    let command = if chars_eq_str(&v, start, k, "new") {
        Command::New { model: arg }
    } else if chars_eq_str(&v, start, k, "sessions") || chars_eq_str(&v, start, k, "list") {
        Command::Sessions
    } else if chars_eq_str(&v, start, k, "model") {
        Command::Model { name: arg }
    } else if chars_eq_str(&v, start, k, "help") || chars_eq_str(&v, start, k, "?") {
        Command::Help
    } else if chars_eq_str(&v, start, k, "quit") || chars_eq_str(&v, start, k, "exit")
        || chars_eq_str(&v, start, k, "q") {
        Command::Quit
    } else {
        Command::Unknown { name: string_of(&v, start, k) }
    };
    assert(command@ == command_named(name, argv));
    Some(command)
}

} // verus!

verus! {

/// `s` padded with spaces on the right to at least `width` characters, as the
/// `{:<width}` format does.
pub open spec fn pad_right(s: Seq<char>, width: nat) -> Seq<char> {
    if s.len() >= width {
        s
    } else {
        s + Seq::new((width - s.len()) as nat, |_i: int| ' ')
    }
}

/// The `/help` rows for `entries`, each on its own line.
pub open spec fn help_rows(entries: Seq<(Seq<char>, Seq<char>)>) -> Seq<char>
    decreases entries.len(),
{
    if entries.len() == 0 {
        seq![]
    } else {
        help_rows(entries.drop_last()) + "\n  "@ + pad_right(entries.last().0, 16) + " "@
            + entries.last().1
    }
}

pub open spec fn spec_help_text() -> Seq<char> {
    "Commands:"@ + help_rows(spec_commands())
}

/// Body of the `/help` listing.
pub fn help_text() -> (r: String)
    ensures
        r@ == spec_help_text(),
{
    let entries = commands();
    let mut out = "Commands:".to_owned();
    let mut i: usize = 0;
    while i < entries.len()
        invariant
            i <= entries.len(),
            entries_view(entries@) == spec_commands(),
            out@ == "Commands:"@ + help_rows(entries_view(entries@).take(i as int)),
        decreases entries.len() - i,
    {
        let usage = entries[i].usage;
        let description = entries[i].description;
        append_str(&mut out, "\n  ");
        let name = chars_of(usage);
        append_str(&mut out, usage);
        let mut pad: usize = name.len();
        while pad < 16
            invariant
                name.len() <= pad <= 16 || (pad == name.len() && pad >= 16),
                out@ == "Commands:"@ + help_rows(entries_view(entries@).take(i as int)) + "\n  "@
                    + usage@ + Seq::new((pad - name.len()) as nat, |_i: int| ' '),
                name@ == usage@,
            decreases 16 - pad,
        {
            push_char(&mut out, ' ');
            assert(Seq::new((pad + 1 - name.len()) as nat, |_i: int| ' ') =~= Seq::new(
                (pad - name.len()) as nat,
                |_i: int| ' ',
            ).push(' '));
            pad = pad + 1;
        }
        proof {
            if usage@.len() >= 16 {
                assert(Seq::new((pad - name.len()) as nat, |_i: int| ' ') =~= Seq::<char>::empty());
            }
        }
        append_str(&mut out, " ");
        append_str(&mut out, description);
        proof {
            let es = entries_view(entries@);
            assert(es.take(i + 1).drop_last() =~= es.take(i as int));
            assert(es.take(i + 1).last() == (usage@, description@));
            assert(out@ =~= "Commands:"@ + help_rows(es.take(i + 1)));
        }
        i = i + 1;
    }
    assert(entries_view(entries@).take(entries.len() as int) =~= entries_view(entries@));
    out
}

} // verus!
