use shell_core::quoting::{parse_args, split_words};
use shell_core::text::{chars_of, string_of, strings_of};

fn owned(words: &[&str]) -> Vec<String> {
    words.iter().map(|w| w.to_string()).collect()
}

#[test]
fn empty_line_has_no_words() {
    assert_eq!(parse_args(""), Vec::<String>::new());
    assert_eq!(parse_args("   \t \n"), Vec::<String>::new());
}

#[test]
fn blanks_separate_words() {
    assert_eq!(parse_args("echo hello world"), owned(&["echo", "hello", "world"]));
    assert_eq!(parse_args("  a \t b\nc\rd  "), owned(&["a", "b", "c", "d"]));
}

#[test]
fn single_quotes_keep_blanks() {
    assert_eq!(parse_args("echo 'a  b'"), owned(&["echo", "a  b"]));
}

#[test]
fn single_quotes_keep_backslash_and_double_quote() {
    assert_eq!(parse_args("'a\\nb\"c'"), owned(&["a\\nb\"c"]));
}

#[test]
fn adjacent_quoted_parts_join_into_one_word() {
    assert_eq!(parse_args("'a'\"b\"c"), owned(&["abc"]));
}

#[test]
fn empty_quotes_make_no_word() {
    assert_eq!(parse_args("echo '' \"\""), owned(&["echo"]));
}

#[test]
fn escape_outside_quotes_takes_next_character() {
    assert_eq!(parse_args("a\\ b"), owned(&["a b"]));
    assert_eq!(parse_args("a\\nb"), owned(&["anb"]));
    assert_eq!(parse_args("\\'x\\\""), owned(&["'x\""]));
}

#[test]
fn escape_inside_double_quotes_is_selective() {
    assert_eq!(parse_args("\"a\\\"b\""), owned(&["a\"b"]));
    assert_eq!(parse_args("\"a\\nb\""), owned(&["a\\nb"]));
    assert_eq!(parse_args("\"a\\\\b\""), owned(&["a\\b"]));
    assert_eq!(parse_args("\"a\\$b\\`c\""), owned(&["a$b`c"]));
    assert_eq!(parse_args("\"a\\\nb\""), owned(&["a\nb"]));
}

#[test]
fn single_quote_inside_double_quotes_is_literal() {
    assert_eq!(parse_args("\"it's\" fine"), owned(&["it's", "fine"]));
}

#[test]
fn double_quotes_keep_blanks() {
    assert_eq!(parse_args("\"a \t b\" c"), owned(&["a \t b", "c"]));
}

#[test]
fn open_quote_is_accepted() {
    assert_eq!(parse_args("echo 'a b"), owned(&["echo", "a b"]));
    assert_eq!(parse_args("echo \"a b"), owned(&["echo", "a b"]));
}

#[test]
fn trailing_backslash_is_dropped() {
    assert_eq!(parse_args("abc\\"), owned(&["abc"]));
    assert_eq!(parse_args("\\"), Vec::<String>::new());
}

#[test]
fn a_blank_after_balanced_quotes_splits_the_line() {
    let a = "x 'p q'";
    let b = "'r  s' t";
    let mut joined = parse_args(a);
    joined.extend(parse_args(b));
    assert_eq!(parse_args(&format!("{} {}", a, b)), joined);
    assert_eq!(joined, owned(&["x", "p q", "r  s", "t"]));
}

#[test]
fn split_words_agrees_with_parse_args() {
    let line = "say \"hi there\" 'x y'\\ z";
    let chars: Vec<char> = line.chars().collect();
    assert_eq!(split_words(&chars), parse_args(line));
    assert_eq!(split_words(&chars), owned(&["say", "hi there", "x y z"]));
}

#[test]
fn characters_round_trip() {
    let chars = chars_of("héllo wörld");
    assert_eq!(chars.len(), 11);
    assert_eq!(chars[1], 'é');
    assert_eq!(string_of(&chars), "héllo wörld");
    assert_eq!(string_of(&Vec::new()), "");
}

#[test]
fn non_ascii_words_survive() {
    assert_eq!(parse_args("écho 'ü ö'"), owned(&["écho", "ü ö"]));
}

#[test]
fn trailing_newline_is_no_word() {
    assert_eq!(parse_args("echo hi\n"), owned(&["echo", "hi"]));
    assert_eq!(parse_args("echo hi\r\n"), owned(&["echo", "hi"]));
}

#[test]
fn strings_of_converts_each_row() {
    let rows = vec![vec!['a', 'b'], vec![], vec!['ç']];
    assert_eq!(strings_of(&rows), owned(&["ab", "", "ç"]));
    assert_eq!(strings_of(&Vec::new()), Vec::<String>::new());
}
