use auger::command::{commands, help_text, parse, Command};

#[test]
fn plain_messages_are_not_commands() {
    assert!(parse("hello").is_none());
    assert!(parse("what is /new").is_none());
    assert!(parse("").is_none());
}

#[test]
fn a_bare_slash_is_not_yet_a_command() {
    assert!(parse("/").is_none());
}

#[test]
fn new_parses_with_and_without_a_model() {
    assert_eq!(parse("/new"), Some(Command::New { model: None }));
    assert_eq!(parse("/new gpt-5"), Some(Command::New { model: Some("gpt-5".into()) }));
}

#[test]
fn surrounding_whitespace_is_ignored() {
    assert_eq!(parse("  /new  "), Some(Command::New { model: None }));
    assert_eq!(parse("/new   gpt-5  "), Some(Command::New { model: Some("gpt-5".into()) }));
}

#[test]
fn aliases_resolve() {
    assert_eq!(parse("/q"), Some(Command::Quit));
    assert_eq!(parse("/exit"), Some(Command::Quit));
    assert_eq!(parse("/list"), Some(Command::Sessions));
    assert_eq!(parse("/?"), Some(Command::Help));
}

#[test]
fn unknown_commands_are_reported_by_name() {
    assert_eq!(parse("/nope"), Some(Command::Unknown { name: "nope".into() }));
}

#[test]
fn model_takes_an_optional_name() {
    assert_eq!(parse("/model"), Some(Command::Model { name: None }));
    assert_eq!(parse("/model opus"), Some(Command::Model { name: Some("opus".into()) }));
}

#[test]
fn help_lists_every_command_that_parses() {
    let text = help_text();
    for entry in commands() {
        let bare = entry.usage.split_whitespace().next().unwrap();
        assert!(text.contains(bare), "{bare} missing from help");
        assert!(
            parse(bare).is_some_and(|c| !matches!(c, Command::Unknown { .. })),
            "{bare} is listed but does not parse"
        );
    }
}

#[test]
fn help_text_lists_usage_and_description_in_order() {
    let text = help_text();
    let new_at = text.find("/new [model]").unwrap();
    let quit_at = text.find("/quit").unwrap();
    assert!(new_at < quit_at);
    assert!(text.contains("start a new session"));
}

#[test]
fn parsing_ignores_whitespace_around_any_input() {
    for s in ["  /new  ", "\t/model  gpt-5 \n", "  hello  ", " / ", "/quit", "  /unknown  x  "] {
        assert_eq!(parse(s), parse(s.trim()));
    }
}
