use surfer::command::{Command, ParamGreed, Parser};
use surfer::expand::{expand_command, parse_command, resolve};
use surfer::message::Message;

fn names(list: &[&str]) -> Vec<String> {
    list.iter().map(|s| s.to_string()).collect()
}

fn leaves(list: &[&str]) -> Command {
    Command::NonTerminal(
        ParamGreed::Word,
        names(list),
        Parser::Table(
            list.iter()
                .map(|s| (s.to_string(), Command::Terminal(Message::LoadVcd(s.to_string()))))
                .collect(),
        ),
    )
}

#[test]
fn exact_match_descends_to_the_action() {
    let out = expand_command("foo", leaves(&["foo"]));
    assert_eq!(out.expanded, "foo");
    assert_eq!(out.suggestions, Vec::<String>::new());
    assert_eq!(
        parse_command("foo", leaves(&["foo"])),
        Some(Message::LoadVcd("foo".to_string()))
    );
}

#[test]
fn empty_input_offers_the_candidates_as_given() {
    let out = expand_command("", leaves(&["zeta", "b", "alpha"]));
    assert_eq!(out.expanded, "");
    assert_eq!(out.suggestions, names(&["zeta", "b", "alpha"]));
    let blank = expand_command("  \t ", leaves(&["zeta", "b", "alpha"]));
    assert_eq!(blank.expanded, "");
    assert_eq!(blank.suggestions, names(&["zeta", "b", "alpha"]));
}

#[test]
fn unique_prefix_is_completed_without_descent() {
    let res = resolve("signal_a", leaves(&["signal_add", "signal_set_color"]));
    assert_eq!(res.expanded, "signal_add");
    assert_eq!(res.suggestions, names(&["signal_add"]));
    assert_eq!(res.action, None);
}

#[test]
fn ambiguous_prefix_keeps_the_input_and_ranks_both() {
    let res = resolve("signal_", leaves(&["signal_set_color", "signal_add"]));
    assert_eq!(res.expanded, "signal_");
    assert_eq!(res.suggestions, names(&["signal_add", "signal_set_color"]));
    assert_eq!(res.action, None);
}

#[test]
fn unique_prefix_descends_once_input_follows() {
    let res = resolve("signal_a ", leaves(&["signal_add", "signal_set_color"]));
    assert_eq!(res.expanded, "signal_add");
    assert_eq!(res.suggestions, Vec::<String>::new());
    assert_eq!(res.action, Some(Message::LoadVcd("signal_add".to_string())));
}

#[test]
fn ranks_prefix_then_length_then_alphabet() {
    let res = resolve("ab", leaves(&["xaxb", "abd", "abc", "ab_long", "a_b", "cab"]));
    assert_eq!(res.expanded, "ab");
    assert_eq!(res.suggestions, names(&["abc", "abd", "ab_long", "a_b", "cab", "xaxb"]));
}

#[test]
fn matching_ignores_the_case_of_letters() {
    let res = resolve("LOC", leaves(&["Local", "Global"]));
    assert_eq!(res.expanded, "Local");
    assert_eq!(res.suggestions, names(&["Local"]));
    let exact = resolve("local", leaves(&["Local", "Global"]));
    assert_eq!(exact.expanded, "Local");
    assert_eq!(exact.action, Some(Message::LoadVcd("Local".to_string())));
}

#[test]
fn exact_word_wins_over_its_other_case() {
    let res = resolve("clk", leaves(&["CLK", "clk"]));
    assert_eq!(res.expanded, "clk");
    assert_eq!(res.action, Some(Message::LoadVcd("clk".to_string())));
}

#[test]
fn unknown_word_stops_with_what_was_typed() {
    let res = resolve("bogus", leaves(&["foo", "bar"]));
    assert_eq!(res.expanded, "bogus");
    assert_eq!(res.suggestions, Vec::<String>::new());
    assert_eq!(res.action, None);
}

#[test]
fn subsequence_match_only_suggests() {
    let res = resolve("sgad", leaves(&["signal_add", "signal_set_color"]));
    assert_eq!(res.expanded, "sgad");
    assert_eq!(res.suggestions, names(&["signal_add"]));
    assert_eq!(res.action, None);
}

#[test]
fn trailing_input_after_a_complete_command_gives_no_action() {
    let res = resolve("foo bar", leaves(&["foo"]));
    assert_eq!(res.expanded, "foo");
    assert_eq!(res.suggestions, Vec::<String>::new());
    assert_eq!(res.action, None);
    let spaced = resolve("  foo   ", leaves(&["foo"]));
    assert_eq!(spaced.expanded, "foo");
    assert_eq!(spaced.action, Some(Message::LoadVcd("foo".to_string())));
}

#[test]
fn descends_through_nested_nodes() {
    let grammar = || {
        Command::NonTerminal(
            ParamGreed::Word,
            names(&["set", "get"]),
            Parser::Table(vec![
                ("set".to_string(), leaves(&["red", "green"])),
                ("get".to_string(), Command::Terminal(Message::ZoomToFit)),
            ]),
        )
    };
    let first = resolve("set", grammar());
    assert_eq!(first.expanded, "set ");
    assert_eq!(first.suggestions, names(&["red", "green"]));
    assert_eq!(first.action, None);
    let second = resolve("set   gr", grammar());
    assert_eq!(second.expanded, "set green");
    assert_eq!(second.suggestions, names(&["green"]));
    assert_eq!(second.action, None);
    let third = resolve("s r ", grammar());
    assert_eq!(third.expanded, "set red");
    assert_eq!(third.action, Some(Message::LoadVcd("red".to_string())));
    let fourth = resolve("set e", grammar());
    assert_eq!(fourth.expanded, "set e");
    assert_eq!(fourth.suggestions, names(&["red", "green"]));
    let fifth = resolve("get", grammar());
    assert_eq!(fifth.expanded, "get");
    assert_eq!(fifth.action, Some(Message::ZoomToFit));
}

#[test]
fn resolving_twice_gives_the_same() {
    let a = resolve("sig", leaves(&["signal_add", "signal_set_color"]));
    let b = resolve("sig", leaves(&["signal_add", "signal_set_color"]));
    assert_eq!(a, b);
}
