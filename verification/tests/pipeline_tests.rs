use shell_core::redirection::Stream;
use shell_core::pipeline::{
    first_action, next_action, not_found_message, plan_pipeline, split_segments, Action,
};

fn owned(words: &[&str]) -> Vec<String> {
    words.iter().map(|w| w.to_string()).collect()
}

fn chars(s: &str) -> Vec<char> {
    s.chars().collect()
}

#[test]
fn line_is_cut_at_every_free_bar() {
    assert_eq!(split_segments(&chars("a|b c|")), vec![chars("a"), chars("b c"), chars("")]);
    assert_eq!(split_segments(&chars("")), vec![chars("")]);
    assert_eq!(split_segments(&chars("no bar")), vec![chars("no bar")]);
    assert_eq!(split_segments(&chars("||")), vec![chars(""), chars(""), chars("")]);
}

#[test]
fn quoted_or_escaped_bar_does_not_cut() {
    assert_eq!(split_segments(&chars("'a|b'")), vec![chars("'a|b'")]);
    assert_eq!(split_segments(&chars("\"a|b\"")), vec![chars("\"a|b\"")]);
    assert_eq!(split_segments(&chars("a\\|b")), vec![chars("a\\|b")]);
    assert_eq!(
        split_segments(&chars("x '|' y | z \"|\"")),
        vec![chars("x '|' y "), chars(" z \"|\"")]
    );
}

#[test]
fn bar_after_a_closed_quote_or_an_escaped_backslash_cuts() {
    assert_eq!(split_segments(&chars("'a'|b")), vec![chars("'a'"), chars("b")]);
    assert_eq!(split_segments(&chars("a\\\\|b")), vec![chars("a\\\\"), chars("b")]);
    assert_eq!(
        split_segments(&chars("\"a\\\"|b\"|c")),
        vec![chars("\"a\\\"|b\""), chars("c")]
    );
    assert_eq!(split_segments(&chars("\"it's\"|b")), vec![chars("\"it's\""), chars("b")]);
}

#[test]
fn quoted_bar_stays_inside_the_argument() {
    let plan = plan_pipeline("echo 'a|b'");
    assert_eq!(plan.len(), 1);
    assert_eq!(plan[0].program, "echo");
    assert_eq!(plan[0].args, owned(&["a|b"]));
    assert!(!plan[0].from_previous);
    assert!(!plan[0].to_next);
    assert!(plan[0].stdout.is_none());
    assert_eq!(first_action(&plan), Action::Spawn(0));
    assert_eq!(next_action(&plan, 0, true), Action::Wait(0));
}

#[test]
fn quoted_bar_beside_a_free_bar() {
    let plan = plan_pipeline("echo \"a|b\" c\\|d | cat");
    assert_eq!(plan.len(), 2);
    assert_eq!(plan[0].program, "echo");
    assert_eq!(plan[0].args, owned(&["a|b", "c|d"]));
    assert!(plan[0].to_next);
    assert_eq!(plan[1].program, "cat");
    assert!(plan[1].from_previous);
}

#[test]
fn every_redirection_of_a_stage_is_listed() {
    let plan = plan_pipeline("sort > a 2> e > b | wc >> c");
    assert_eq!(plan.len(), 2);
    let listed: Vec<(Stream, &str, bool)> = plan[0]
        .directives
        .iter()
        .map(|d| (d.stream, d.target.path.as_str(), d.target.append))
        .collect();
    assert_eq!(
        listed,
        vec![(Stream::Stdout, "a", false), (Stream::Stderr, "e", false), (Stream::Stdout, "b", false)]
    );
    assert_eq!(plan[0].stdout.as_ref().unwrap().path, "b");
    assert_eq!(plan[0].stderr.as_ref().unwrap().path, "e");
    assert!(plan[0].args.is_empty());
    assert_eq!(plan[1].directives.len(), 1);
    assert_eq!(plan[1].directives[0].target.path, "c");
    assert!(plan[1].directives[0].target.append);
}

#[test]
fn two_stage_pipeline() {
    let plan = plan_pipeline("printf a | cat");
    assert_eq!(plan.len(), 2);
    assert_eq!(plan[0].program, "printf");
    assert_eq!(plan[0].args, owned(&["a"]));
    assert!(!plan[0].from_previous);
    assert!(plan[0].to_next);
    assert!(plan[0].stdout.is_none());
    assert!(plan[0].stderr.is_none());
    assert_eq!(plan[1].program, "cat");
    assert!(plan[1].args.is_empty());
    assert!(plan[1].from_previous);
    assert!(!plan[1].to_next);
    assert!(plan[1].stdout.is_none());
}

#[test]
fn actions_of_a_two_stage_pipeline() {
    let plan = plan_pipeline("printf a | cat");
    assert_eq!(first_action(&plan), Action::Spawn(0));
    assert_eq!(next_action(&plan, 0, true), Action::Spawn(1));
    assert_eq!(next_action(&plan, 1, true), Action::Wait(1));
}

#[test]
fn failed_start_is_reported_and_ends_the_run() {
    let plan = plan_pipeline("nosuch | cat | wc");
    assert_eq!(next_action(&plan, 0, false), Action::Report(0));
    assert_eq!(next_action(&plan, 1, false), Action::Report(1));
    assert_eq!(next_action(&plan, 2, false), Action::Report(2));
}

#[test]
fn empty_plan_finishes_at_once() {
    let plan = plan_pipeline(" | | ");
    assert!(plan.is_empty());
    assert_eq!(first_action(&plan), Action::Finish);
}

#[test]
fn empty_segments_are_passed_over() {
    let plan = plan_pipeline("ls -l | | wc");
    assert_eq!(plan.len(), 2);
    assert_eq!(plan[0].program, "ls");
    assert_eq!(plan[0].args, owned(&["-l"]));
    assert!(plan[0].to_next);
    assert_eq!(plan[1].program, "wc");
    assert!(plan[1].from_previous);
    assert!(!plan[1].to_next);
}

#[test]
fn stage_before_an_empty_last_segment_still_writes_to_a_pipe() {
    let plan = plan_pipeline("ls |");
    assert_eq!(plan.len(), 1);
    assert!(plan[0].to_next);
    assert!(!plan[0].from_previous);
}

#[test]
fn stage_after_an_empty_first_segment_inherits_input() {
    let plan = plan_pipeline("| wc");
    assert_eq!(plan.len(), 1);
    assert!(!plan[0].from_previous);
    assert!(!plan[0].to_next);
}

#[test]
fn redirections_are_taken_out_of_each_stage() {
    let plan = plan_pipeline("grep x 2> err.txt | sort >> out.txt -r");
    assert_eq!(plan.len(), 2);
    assert_eq!(plan[0].args, owned(&["x"]));
    assert!(plan[0].stdout.is_none());
    let err = plan[0].stderr.as_ref().unwrap();
    assert_eq!(err.path, "err.txt");
    assert!(!err.append);
    assert_eq!(plan[1].program, "sort");
    assert_eq!(plan[1].args, owned(&["-r"]));
    let out = plan[1].stdout.as_ref().unwrap();
    assert_eq!(out.path, "out.txt");
    assert!(out.append);
    assert!(plan[1].stderr.is_none());
}

#[test]
fn operator_as_first_word_is_the_program() {
    let plan = plan_pipeline("> out.txt");
    assert_eq!(plan.len(), 1);
    assert_eq!(plan[0].program, ">");
    assert_eq!(plan[0].args, owned(&["out.txt"]));
    assert!(plan[0].stdout.is_none());
}

#[test]
fn single_command_is_a_plan_of_one_stage() {
    let plan = plan_pipeline("echo 'a b' > f");
    assert_eq!(plan.len(), 1);
    assert_eq!(plan[0].program, "echo");
    assert_eq!(plan[0].args, owned(&["a b"]));
    assert!(!plan[0].from_previous);
    assert!(!plan[0].to_next);
    assert_eq!(plan[0].stdout.as_ref().unwrap().path, "f");
    assert_eq!(first_action(&plan), Action::Spawn(0));
    assert_eq!(next_action(&plan, 0, true), Action::Wait(0));
}

#[test]
fn message_names_the_program() {
    assert_eq!(not_found_message("nosuch"), "nosuch: command not found");
    assert_eq!(not_found_message(""), ": command not found");
}
