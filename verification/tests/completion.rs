use auger::command::commands;
use auger::completion::Completion;

fn names(completion: &Completion, input: &str) -> Vec<&'static str> {
    completion.matches(input).iter().map(|m| m.name).collect()
}

#[test]
fn a_bare_slash_offers_every_command() {
    let completion = Completion::default();
    assert_eq!(names(&completion, "/").len(), commands().len());
}

#[test]
fn typing_narrows_the_list() {
    let completion = Completion::default();
    assert_eq!(names(&completion, "/mo"), ["/model"]);
    assert!(names(&completion, "/zzz").is_empty());
}

#[test]
fn ordinary_messages_never_open_the_popup() {
    let completion = Completion::default();
    assert!(!completion.is_open("hello"));
    assert!(!completion.is_open(""));
}

#[test]
fn the_popup_closes_once_an_argument_is_being_typed() {
    let completion = Completion::default();
    assert!(completion.is_open("/model"));
    assert!(!completion.is_open("/model "), "now completing a value");
}

#[test]
fn accepting_leaves_a_space_only_for_commands_that_take_arguments() {
    let completion = Completion::default();
    assert_eq!(completion.accept("/new").as_deref(), Some("/new "));
    assert_eq!(completion.accept("/he").as_deref(), Some("/help"));
}

#[test]
fn selection_wraps_in_both_directions() {
    let mut completion = Completion::default();
    let count = names(&completion, "/").len();
    completion.prev("/");
    assert_eq!(completion.selected("/"), count - 1);
    completion.next("/");
    assert_eq!(completion.selected("/"), 0);
}

#[test]
fn a_shrinking_list_keeps_the_highlight_in_range() {
    let mut completion = Completion::default();
    for _ in 0..4 {
        completion.next("/");
    }
    assert_eq!(completion.selected("/mo"), 0);
    assert_eq!(completion.accept("/mo").as_deref(), Some("/model "));
}

#[test]
fn dismissing_hides_the_popup_until_the_next_edit() {
    let mut completion = Completion::default();
    completion.dismiss();
    assert!(!completion.is_open("/"));
    completion.reset();
    assert!(completion.is_open("/"));
}

#[test]
fn accepting_with_no_match_gives_nothing() {
    let completion = Completion::default();
    assert_eq!(completion.accept("/zzz"), None);
}
