use shell_core::autocompletion::{
    begins_with, complete_line, contains_blank, contains_space, find_completions, find_lcp, rank,
    Rank,
};
use shell_core::command::{same_text, Cmd};
use shell_core::history::{move_history, Direction};

fn owned(words: &[&str]) -> Vec<String> {
    words.iter().map(|w| w.to_string()).collect()
}

fn chars(s: &str) -> Vec<char> {
    s.chars().collect()
}

#[test]
fn lcp_of_examples() {
    assert_eq!(find_lcp(&owned(&["echo", "echoes"])), "echo");
    assert_eq!(find_lcp(&owned(&[])), "");
    assert_eq!(find_lcp(&owned(&["a", "b"])), "");
    assert_eq!(find_lcp(&owned(&["only"])), "only");
    assert_eq!(find_lcp(&owned(&["xyz_foo", "xyz_bar", "xyz_baz"])), "xyz_");
    assert_eq!(find_lcp(&owned(&["abc", ""])), "");
}

#[test]
fn lcp_does_not_depend_on_order() {
    let a = find_lcp(&owned(&["echoes", "echo", "echidna"]));
    let b = find_lcp(&owned(&["echidna", "echoes", "echo"]));
    assert_eq!(a, "ech");
    assert_eq!(a, b);
}

#[test]
fn lcp_is_idempotent() {
    let p = find_lcp(&owned(&["type", "typeset"]));
    assert_eq!(p, "type");
    assert_eq!(find_lcp(&vec![p.clone()]), p);
}

#[test]
fn rank_is_the_order_of_strings() {
    let words = ["", "a", "ab", "abc", "b", "B", "é", "z", "a b", "a-b"];
    for x in words {
        for y in words {
            let expected = if x < y {
                Rank::Before
            } else if x == y {
                Rank::Same
            } else {
                Rank::After
            };
            assert_eq!(rank(&chars(x), &chars(y)), expected);
        }
    }
}

#[test]
fn begins_with_examples() {
    assert!(begins_with(&chars("echo"), &chars("ec")));
    assert!(begins_with(&chars("echo"), &chars("")));
    assert!(begins_with(&chars("echo"), &chars("echo")));
    assert!(!begins_with(&chars("echo"), &chars("echoes")));
    assert!(!begins_with(&chars("echo"), &chars("ex")));
}

#[test]
fn blank_and_space_detection() {
    assert!(contains_blank(&chars("a b")));
    assert!(contains_blank(&chars("a\tb")));
    assert!(contains_blank(&chars("a\n")));
    assert!(contains_blank(&chars("\r")));
    assert!(!contains_blank(&chars("ab")));
    assert!(!contains_blank(&chars("")));
    assert!(contains_space(&chars("a b")));
    assert!(!contains_space(&chars("a\tb")));
}

#[test]
fn completions_of_builtins() {
    assert_eq!(find_completions("e", &Vec::new()), owned(&["echo", "exit"]));
    assert_eq!(find_completions("ec", &Vec::new()), owned(&["echo"]));
    assert_eq!(find_completions("", &Vec::new()), owned(&["cd", "echo", "exit", "pwd", "type"]));
    assert_eq!(find_completions("q", &Vec::new()), Vec::<String>::new());
}

#[test]
fn completions_are_sorted_and_unique() {
    let execs = owned(&["env", "echo", "ed", "ls", "env", "egrep", "e"]);
    assert_eq!(
        find_completions("e", &execs),
        owned(&["e", "echo", "ed", "egrep", "env", "exit"])
    );
}

#[test]
fn prefix_with_a_blank_has_no_completions() {
    let execs = owned(&["echo hi", "echo"]);
    assert_eq!(find_completions("echo ", &execs), Vec::<String>::new());
    assert_eq!(find_completions("e c", &execs), Vec::<String>::new());
    assert_eq!(find_completions("e\tc", &execs), Vec::<String>::new());
}

#[test]
fn line_entries_carry_a_space() {
    let execs = owned(&["env", "echo", "ls", "env"]);
    assert_eq!(complete_line("e", "e", &execs), owned(&["echo ", "env ", "exit "]));
    assert_eq!(complete_line("echo", "ec", &execs), owned(&["echo "]));
    assert_eq!(complete_line("t", "t", &execs), Vec::<String>::new());
    assert_eq!(complete_line("e x", "e", &execs), Vec::<String>::new());
}

#[test]
fn first_word_names_the_command() {
    assert_eq!(Cmd::parse("exit"), Cmd::Exit);
    assert_eq!(Cmd::parse("echo"), Cmd::Echo);
    assert_eq!(Cmd::parse("type"), Cmd::Type);
    assert_eq!(Cmd::parse("pwd"), Cmd::Pwd);
    assert_eq!(Cmd::parse("cd"), Cmd::Cd);
    assert_eq!(Cmd::parse("ls"), Cmd::Run);
    assert_eq!(Cmd::parse(""), Cmd::Run);
    assert_eq!(Cmd::parse("Exit"), Cmd::Run);
    assert_eq!(Cmd::parse("exit "), Cmd::Run);
    assert!(Cmd::Cd.is_builtin());
    assert!(!Cmd::Run.is_builtin());
}

#[test]
fn same_text_examples() {
    assert!(same_text("abc", "abc"));
    assert!(same_text("", ""));
    assert!(!same_text("abc", "abd"));
    assert!(!same_text("abc", "ab"));
}

#[test]
fn history_up_stops_at_the_oldest_entry() {
    let history = owned(&["ls", "pwd"]);
    let mut buffer = String::from("draft");
    let mut cursor: usize = 2;
    assert!(move_history(Direction::Up, &history, &mut buffer, &mut cursor));
    assert_eq!(cursor, 1);
    assert_eq!(buffer, "pwd");
    assert!(move_history(Direction::Up, &history, &mut buffer, &mut cursor));
    assert_eq!(cursor, 0);
    assert_eq!(buffer, "ls");
    assert!(!move_history(Direction::Up, &history, &mut buffer, &mut cursor));
    assert_eq!(cursor, 0);
    assert_eq!(buffer, "ls");
}

#[test]
fn history_down_ends_on_the_empty_live_line() {
    let history = owned(&["ls", "pwd"]);
    let mut buffer = String::from("ls");
    let mut cursor: usize = 0;
    assert!(move_history(Direction::Down, &history, &mut buffer, &mut cursor));
    assert_eq!(cursor, 1);
    assert_eq!(buffer, "pwd");
    assert!(move_history(Direction::Down, &history, &mut buffer, &mut cursor));
    assert_eq!(cursor, 2);
    assert_eq!(buffer, "");
    assert!(!move_history(Direction::Down, &history, &mut buffer, &mut cursor));
    assert_eq!(cursor, 2);
    assert_eq!(buffer, "");
}

#[test]
fn history_without_entries_does_not_move() {
    let history: Vec<String> = Vec::new();
    let mut buffer = String::from("typing");
    let mut cursor: usize = 0;
    assert!(!move_history(Direction::Up, &history, &mut buffer, &mut cursor));
    assert!(!move_history(Direction::Down, &history, &mut buffer, &mut cursor));
    assert_eq!(cursor, 0);
    assert_eq!(buffer, "typing");
}
