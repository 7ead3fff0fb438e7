//! The shell syntax that the auto-approval policy inspects, and the parser
//! that produces it.
//!
//! Parsing is done by `yash_syntax`; its syntax tree is carried over into the
//! plain types below, one node for one node, keeping what the policy reads.

use vstd::prelude::*;
use yash_syntax::syntax::Command as YashCommand;

verus! {

/// A character of unquoted or double-quoted text.
pub enum ShellTextUnit {
    /// Literal single character.
    Literal(char),
    /// Backslash-escaped single character.
    Backslashed(char),
    /// Parameter expansion without braces, such as `$x`.
    RawParam,
    /// Parameter expansion in braces, such as `${x}`.
    BracedParam,
    /// Command substitution `$(...)`.
    CommandSubst,
    /// Command substitution in backquotes.
    Backquote,
    /// Arithmetic expansion `$((...))`.
    Arith,
}

/// A part of a word.
pub enum ShellWordUnit {
    /// An unquoted text unit.
    Unquoted(ShellTextUnit),
    /// A string in single quotes.
    SingleQuote(String),
    /// Text in double quotes.
    DoubleQuote(Vec<ShellTextUnit>),
    /// A string in `$'...'` quotes.
    DollarSingleQuote,
    /// Tilde expansion.
    Tilde { name: String, followed_by_slash: bool },
}

/// A word: a command name or argument.
pub struct ShellWord {
    pub units: Vec<ShellWordUnit>,
}

/// An assignment in front of a command, such as `A=1`.
pub struct ShellAssign;

/// A redirection, such as `> out`.
pub struct ShellRedir;

/// A command with its assignments, words and redirections.
pub struct ShellSimpleCommand {
    pub assigns: Vec<ShellAssign>,
    pub words: Vec<ShellWord>,
    pub redirs: Vec<ShellRedir>,
}

/// An element of a pipeline.
pub enum ShellCommand {
    Simple(ShellSimpleCommand),
    /// A compound command: grouping, subshell, loop or conditional.
    Compound,
    /// A function definition.
    Function,
}

/// Commands separated by `|`.
pub struct ShellPipeline {
    pub commands: Vec<ShellCommand>,
    /// Whether the pipeline begins with `!`.
    pub negation: bool,
}

/// The operator in front of a pipeline of an and-or list.
pub enum ShellConnector {
    /// `&&`
    AndThen,
    /// `||`
    OrElse,
}

/// Pipelines separated by `&&` and `||`.
pub struct ShellAndOr {
    pub first: ShellPipeline,
    pub rest: Vec<(ShellConnector, ShellPipeline)>,
}

/// The `&` that sends an item to the background.
pub struct ShellBackground;

/// An element of a list.
pub struct ShellItem {
    pub and_or: ShellAndOr,
    /// Present when the item ends with `&`.
    pub async_flag: Option<ShellBackground>,
}

/// Items separated by `;` or `&`.
pub struct ShellList {
    pub items: Vec<ShellItem>,
}

/// The syntax tree that `yash_syntax` parses `command` into, carried over
/// into the types above; `None` when `command` is not valid shell syntax.
pub uninterp spec fn shell_parse(command: Seq<char>) -> Option<ShellList>;

#[verifier::external_type_specification]
#[verifier::external_body]
pub struct ExYashList(yash_syntax::syntax::List);

#[verifier::external_type_specification]
#[verifier::external_body]
pub struct ExYashItem(yash_syntax::syntax::Item);

#[verifier::external_type_specification]
#[verifier::external_body]
pub struct ExYashPipeline(yash_syntax::syntax::Pipeline);

#[verifier::external_type_specification]
#[verifier::external_body]
pub struct ExYashCommand(YashCommand);

#[verifier::external_type_specification]
#[verifier::external_body]
pub struct ExYashSimpleCommand(yash_syntax::syntax::SimpleCommand);

#[verifier::external_type_specification]
#[verifier::external_body]
pub struct ExYashWord(yash_syntax::syntax::Word);

#[verifier::external_type_specification]
#[verifier::external_body]
pub struct ExYashWordUnit(yash_syntax::syntax::WordUnit);

#[verifier::external_type_specification]
#[verifier::external_body]
pub struct ExYashTextUnit(yash_syntax::syntax::TextUnit);

/// Parses `command` with `yash_syntax` (`<List as FromStr>::from_str`) and
/// carries the tree over. The contract names the result and says nothing
/// more of it.
#[verifier::external_body]
pub fn parse_shell_list(command: &str) -> (r: Option<ShellList>)
    ensures
        r == shell_parse(command@),
{
    match command.parse::<yash_syntax::syntax::List>() {
        Ok(list) => Some(convert_list(&list)),
        Err(_) => None,
    }
}

/// Carries a `yash_syntax` list over, item by item.
#[verifier::external_body]
fn convert_list(list: &yash_syntax::syntax::List) -> ShellList {
    let mut items = Vec::new();
    for item in &list.0 {
        items.push(convert_item(item));
    }
    ShellList { items }
}

/// Carries a `yash_syntax` list item over: its and-or list and its `&`.
#[verifier::external_body]
fn convert_item(item: &yash_syntax::syntax::Item) -> ShellItem {
    let mut rest = Vec::new();
    for (connector, pipeline) in &item.and_or.rest {
        let connector = match connector {
            yash_syntax::syntax::AndOr::AndThen => ShellConnector::AndThen,
            yash_syntax::syntax::AndOr::OrElse => ShellConnector::OrElse,
        };
        rest.push((connector, convert_pipeline(pipeline)));
    }
    let first = convert_pipeline(&item.and_or.first);
    let async_flag = item.async_flag.as_ref().map(|_| ShellBackground);
    ShellItem { and_or: ShellAndOr { first, rest }, async_flag }
}

/// Carries a `yash_syntax` pipeline over, command by command.
#[verifier::external_body]
fn convert_pipeline(pipeline: &yash_syntax::syntax::Pipeline) -> ShellPipeline {
    let mut commands = Vec::new();
    for command in &pipeline.commands {
        commands.push(convert_command(command));
    }
    ShellPipeline { commands, negation: pipeline.negation }
}

/// Carries a `yash_syntax` command over; compound commands and function
/// definitions keep only their kind.
#[verifier::external_body]
fn convert_command(command: &YashCommand) -> ShellCommand {
    match command {
        YashCommand::Simple(simple) => ShellCommand::Simple(convert_simple(simple)),
        YashCommand::Compound(_) => ShellCommand::Compound,
        YashCommand::Function(_) => ShellCommand::Function,
    }
}

/// Carries a `yash_syntax` simple command over: one marker per assignment and
/// per redirection, and its words.
#[verifier::external_body]
fn convert_simple(simple: &yash_syntax::syntax::SimpleCommand) -> ShellSimpleCommand {
    let assigns = simple.assigns.iter().map(|_| ShellAssign).collect();
    let redirs = simple.redirs.iter().map(|_| ShellRedir).collect();
    let mut words = Vec::new();
    for (word, _mode) in &simple.words {
        words.push(convert_word(word));
    }
    ShellSimpleCommand { assigns, words, redirs }
}

/// Carries a `yash_syntax` word over, unit by unit.
#[verifier::external_body]
fn convert_word(word: &yash_syntax::syntax::Word) -> ShellWord {
    let mut units = Vec::new();
    for unit in &word.units {
        units.push(convert_word_unit(unit));
    }
    ShellWord { units }
}

/// Carries a `yash_syntax` word unit over.
#[verifier::external_body]
fn convert_word_unit(unit: &yash_syntax::syntax::WordUnit) -> ShellWordUnit {
    match unit {
        yash_syntax::syntax::WordUnit::Unquoted(text) => ShellWordUnit::Unquoted(convert_text_unit(text)),
        yash_syntax::syntax::WordUnit::SingleQuote(value) => ShellWordUnit::SingleQuote(value.clone()),
        yash_syntax::syntax::WordUnit::DoubleQuote(text) => ShellWordUnit::DoubleQuote(text.0.iter().map(convert_text_unit).collect()),
        yash_syntax::syntax::WordUnit::DollarSingleQuote(_) => ShellWordUnit::DollarSingleQuote,
        yash_syntax::syntax::WordUnit::Tilde { name, followed_by_slash } => ShellWordUnit::Tilde { name: name.clone(), followed_by_slash: *followed_by_slash },
    }
}

/// Carries a `yash_syntax` text unit over; expansions keep only their kind.
#[verifier::external_body]
fn convert_text_unit(unit: &yash_syntax::syntax::TextUnit) -> ShellTextUnit {
    match unit {
        yash_syntax::syntax::TextUnit::Literal(c) => ShellTextUnit::Literal(*c),
        yash_syntax::syntax::TextUnit::Backslashed(c) => ShellTextUnit::Backslashed(*c),
        yash_syntax::syntax::TextUnit::RawParam { .. } => ShellTextUnit::RawParam,
        yash_syntax::syntax::TextUnit::BracedParam(_) => ShellTextUnit::BracedParam,
        yash_syntax::syntax::TextUnit::CommandSubst { .. } => ShellTextUnit::CommandSubst,
        yash_syntax::syntax::TextUnit::Backquote { .. } => ShellTextUnit::Backquote,
        yash_syntax::syntax::TextUnit::Arith { .. } => ShellTextUnit::Arith,
    }
}

} // verus!
