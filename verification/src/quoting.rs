//! Splitting a line into words under shell quoting rules.
//!
//! The line is read one character at a time by a small state machine
//! ([`step`]); the words of a line are what the machine has collected when
//! the line ends ([`words`]).

use vstd::prelude::*;
use crate::text::{chars_of, string_of, texts};

verus! {

/// What the splitter knows after reading part of a line.
pub struct Scan {
    /// The words completed so far.
    pub done: Seq<Seq<char>>,
    /// The word being collected.
    pub current: Seq<char>,
    /// Inside `'...'`.
    pub in_single: bool,
    /// Inside `"..."`.
    pub in_double: bool,
    /// The previous character was an unquoted backslash.
    pub escape: bool,
}

/// The characters that separate words outside quotes.
pub open spec fn is_blank(c: char) -> bool {
    c == ' ' || c == '\t' || c == '\n' || c == '\r'
}

/// The characters that a backslash protects inside double quotes.
pub open spec fn is_special_in_double(c: char) -> bool {
    c == '$' || c == '`' || c == '"' || c == '\\' || c == '\n'
}

/// The state before any character has been read.
pub open spec fn start() -> Scan {
    Scan { done: seq![], current: seq![], in_single: false, in_double: false, escape: false }
}

/// The state after reading `c` in state `st`.
pub open spec fn step(st: Scan, c: char) -> Scan {
    if st.in_single {
        if c == '\'' {
            Scan { in_single: false, ..st }
        } else {
            Scan { current: st.current.push(c), ..st }
        }
    } else if st.escape {
        if st.in_double && !is_special_in_double(c) {
            Scan { current: st.current.push('\\').push(c), escape: false, ..st }
        } else {
            Scan { current: st.current.push(c), escape: false, ..st }
        }
    } else if c == '\\' {
        Scan { escape: true, ..st }
    } else if c == '\'' {
        if st.in_double {
            Scan { current: st.current.push(c), ..st }
        } else {
            Scan { in_single: true, ..st }
        }
    } else if c == '"' {
        Scan { in_double: !st.in_double, ..st }
    } else if is_blank(c) {
        if st.in_double {
            Scan { current: st.current.push(c), ..st }
        } else if st.current.len() > 0 {
            Scan { done: st.done.push(st.current), current: seq![], ..st }
        } else {
            st
        }
    } else {
        Scan { current: st.current.push(c), ..st }
    }
}

/// The state after reading all of `s`, from left to right, starting in `st`.
pub open spec fn run(st: Scan, s: Seq<char>) -> Scan
    decreases s.len(),
{
    if s.len() == 0 {
        st
    } else {
        step(run(st, s.drop_last()), s.last())
    }
}

/// The words collected when the input ends in state `st`: an unfinished word
/// counts if it is not empty; an open quote or a pending backslash is dropped
/// without complaint.
pub open spec fn finish(st: Scan) -> Seq<Seq<char>> {
    if st.current.len() > 0 {
        st.done.push(st.current)
    } else {
        st.done
    }
}

/// The words of a line.
pub open spec fn words(line: Seq<char>) -> Seq<Seq<char>> {
    finish(run(start(), line))
}

/// Splits a line into words.
///
/// Single quotes keep everything up to the closing quote as it is. Double
/// quotes keep blanks; a backslash inside them protects only `$`, `` ` ``,
/// `"`, `\` and newline and otherwise stays. Outside quotes a backslash makes
/// the next character an ordinary one. Unquoted blanks end a word; only
/// non-empty words are kept.
pub fn parse_args(input: &str) -> (args: Vec<String>)
    ensures
        texts(args@) == words(input@),
{
    let line = chars_of(input);
    split_words(&line)
}

/// Splits a line, given as its characters, into words as [`parse_args`] does.
pub fn split_words(line: &Vec<char>) -> (args: Vec<String>)
    ensures
        texts(args@) == words(line@),
{
    let mut args: Vec<String> = Vec::new();
    let mut current: Vec<char> = Vec::new();
    let mut in_single = false;
    let mut in_double = false;
    let mut escape = false;
    let mut i: usize = 0;
    proof {
        assert(texts(args@) =~= seq![]);
        assert(current@ =~= seq![]);
        assert(line@.take(0).len() == 0);
    }
    while i < line.len()
        invariant
            i <= line.len(),
            run(start(), line@.take(i as int)) == (Scan {
                done: texts(args@),
                current: current@,
                in_single,
                in_double,
                escape,
            }),
        decreases line.len() - i,
    {
        let c = line[i];
        proof {
            assert(line@.take(i + 1).drop_last() =~= line@.take(i as int));
            assert(line@.take(i + 1).last() == c);
        }
        if in_single {
            if c == '\'' {
                in_single = false;
            } else {
                current.push(c);
            }
        } else if escape {
            escape = false;
            if in_double && !(c == '$' || c == '`' || c == '"' || c == '\\' || c == '\n') {
                current.push('\\');
            }
            current.push(c);
        } else if c == '\\' {
            escape = true;
        } else if c == '\'' {
            if in_double {
                current.push(c);
            } else {
                in_single = true;
            }
        } else if c == '"' {
            in_double = !in_double;
        } else if c == ' ' || c == '\t' || c == '\n' || c == '\r' {
            if in_double {
                current.push(c);
            } else if current.len() > 0 {
                let word = string_of(&current);
                proof {
                    assert(texts(args@.push(word)) =~= texts(args@).push(current@));
                }
                args.push(word);
                current = Vec::new();
            }
        } else {
            current.push(c);
        }
        i += 1;
    }
    proof {
        assert(line@.take(line.len() as int) =~= line@);
    }
    if current.len() > 0 {
        let word = string_of(&current);
        proof {
            assert(texts(args@.push(word)) =~= texts(args@).push(current@));
        }
        args.push(word);
    }
    args
}

/// Outside quotes, with no backslash pending.
pub open spec fn at_rest(st: Scan) -> bool {
    !st.in_single && !st.in_double && !st.escape
}

/// The state `st` with the words `first` put before its completed words.
pub open spec fn after_words(first: Seq<Seq<char>>, st: Scan) -> Scan {
    Scan { done: first + st.done, ..st }
}

/// The number of single quote characters in a text.
pub open spec fn single_quotes(s: Seq<char>) -> nat
    decreases s.len(),
{
    if s.len() == 0 {
        0
    } else if s.last() == '\'' {
        single_quotes(s.drop_last()) + 1
    } else {
        single_quotes(s.drop_last())
    }
}

/// A text without double quotes and backslashes.
pub open spec fn only_single_quoting(s: Seq<char>) -> bool {
    forall|i: int| 0 <= i < s.len() ==> #[trigger] s[i] != '"' && s[i] != '\\'
}

/// Reading two texts one after the other is reading them joined.
pub proof fn run_joined(st: Scan, a: Seq<char>, b: Seq<char>)
    ensures
        run(st, a + b) == run(run(st, a), b),
    decreases b.len(),
{
    if b.len() == 0 {
        assert(a + b =~= a);
    } else {
        assert((a + b).drop_last() =~= a + b.drop_last());
        run_joined(st, a, b.drop_last());
    }
}

/// Words completed earlier pass through the reading of further text untouched.
pub proof fn run_after_words(first: Seq<Seq<char>>, st: Scan, s: Seq<char>)
    ensures
        run(after_words(first, st), s) == after_words(first, run(st, s)),
        finish(after_words(first, st)) == first + finish(st),
    decreases s.len(),
{
    assert(finish(after_words(first, st)) =~= first + finish(st));
    if s.len() > 0 {
        run_after_words(first, st, s.drop_last());
        let mid = run(st, s.drop_last());
        assert(first + mid.done.push(mid.current) =~= (first + mid.done).push(mid.current));
        assert(step(after_words(first, mid), s.last()) == after_words(first, step(mid, s.last())));
    }
}

/// An unquoted blank is where a line splits: if `a` ends outside quotes with
/// no backslash pending, the words of `a`, a blank and `b` are the words of
/// `a` followed by the words of `b`.
pub proof fn words_split_at_blank(a: Seq<char>, c: char, b: Seq<char>)
    requires
        is_blank(c),
        at_rest(run(start(), a)),
    ensures
        words(a.push(c) + b) == words(a) + words(b),
{
    let st = run(start(), a);
    assert(a.push(c).drop_last() =~= a);
    let cut = run(start(), a.push(c));
    assert(cut == step(st, c));
    assert(cut.done =~= finish(st) + start().done);
    assert(cut.current =~= start().current);
    assert(cut == after_words(finish(st), start()));
    run_joined(start(), a.push(c), b);
    run_after_words(finish(st), start(), b);
}

/// Without double quotes and backslashes, a text ends outside quotes exactly
/// when its single quotes are balanced.
pub proof fn single_quoting_state(s: Seq<char>)
    requires
        only_single_quoting(s),
    ensures
        !run(start(), s).in_double,
        !run(start(), s).escape,
        run(start(), s).in_single == (single_quotes(s) % 2 == 1),
    decreases s.len(),
{
    if s.len() > 0 {
        assert(s.last() == s[s.len() - 1]);
        assert forall|i: int| 0 <= i < s.drop_last().len() implies #[trigger] s.drop_last()[i]
            != '"' && s.drop_last()[i] != '\\' by {
            assert(s.drop_last()[i] == s[i]);
        }
        single_quoting_state(s.drop_last());
    }
}

/// A line with balanced single quotes and neither double quotes nor
/// backslashes splits at each blank that follows balanced quotes: the words
/// of `a`, such a blank and `b` are the words of `a` followed by those of `b`.
pub proof fn single_quoted_line_splits(a: Seq<char>, c: char, b: Seq<char>)
    requires
        only_single_quoting(a),
        single_quotes(a) % 2 == 0,
        is_blank(c),
    ensures
        words(a.push(c) + b) == words(a) + words(b),
{
    single_quoting_state(a);
    words_split_at_blank(a, c, b);
}

/// Reading text inside single quotes adds it to the current word as it is.
pub proof fn run_inside_single_quotes(st: Scan, body: Seq<char>)
    requires
        st.in_single,
        forall|i: int| 0 <= i < body.len() ==> body[i] != '\'',
    ensures
        run(st, body) == (Scan { current: st.current + body, ..st }),
    decreases body.len(),
{
    if body.len() == 0 {
        assert(st.current + body =~= st.current);
    } else {
        run_inside_single_quotes(st, body.drop_last());
        assert(body.last() == body[body.len() - 1]);
        assert((st.current + body.drop_last()).push(body.last()) =~= st.current + body);
    }
}

/// Single quotes keep what they enclose, blanks included: read outside
/// quotes, `'body'` adds exactly `body` to the current word and leaves the
/// rest of the state as it was.
pub proof fn single_quotes_are_literal(st: Scan, body: Seq<char>)
    requires
        at_rest(st),
        forall|i: int| 0 <= i < body.len() ==> body[i] != '\'',
    ensures
        run(st, seq!['\''] + body + seq!['\'']) == (Scan { current: st.current + body, ..st }),
{
    let open = seq!['\''];
    assert(open.drop_last() =~= seq![]);
    assert(run(st, open) == step(run(st, open.drop_last()), '\''));
    let inside = Scan { in_single: true, ..st };
    assert(run(st, open) == inside);
    run_joined(st, open, body);
    run_inside_single_quotes(inside, body);
    assert((open + body + seq!['\'']).drop_last() =~= open + body);
}

/// Outside quotes a backslash makes the next character an ordinary one: the
/// pair adds just that character to the current word, a blank or a quote too.
pub proof fn escape_outside_quotes(st: Scan, c: char)
    requires
        at_rest(st),
    ensures
        run(st, seq!['\\', c]) == (Scan { current: st.current.push(c), ..st }),
{
    let pair = seq!['\\', c];
    assert(pair.drop_last() =~= seq!['\\']);
    assert(pair.drop_last().drop_last() =~= seq![]);
    assert(run(st, pair.drop_last()) == step(run(st, pair.drop_last().drop_last()), '\\'));
}

/// Inside double quotes a backslash protects `$`, `` ` ``, `"`, `\` and
/// newline, which are added without it; before any other character the
/// backslash stays.
pub proof fn escape_inside_double_quotes(st: Scan, c: char)
    requires
        st.in_double,
        !st.in_single,
        !st.escape,
    ensures
        run(st, seq!['\\', c]) == (Scan {
            current: if is_special_in_double(c) {
                st.current.push(c)
            } else {
                st.current.push('\\').push(c)
            },
            ..st
        }),
{
    let pair = seq!['\\', c];
    assert(pair.drop_last() =~= seq!['\\']);
    assert(pair.drop_last().drop_last() =~= seq![]);
    assert(run(st, pair.drop_last()) == step(run(st, pair.drop_last().drop_last()), '\\'));
}

/// No completed word is empty.
pub open spec fn done_words_filled(st: Scan) -> bool {
    forall|i: int| 0 <= i < st.done.len() ==> (#[trigger] st.done[i]).len() > 0
}

/// Reading text never completes an empty word.
pub proof fn run_keeps_words_filled(st: Scan, s: Seq<char>)
    requires
        done_words_filled(st),
    ensures
        done_words_filled(run(st, s)),
    decreases s.len(),
{
    if s.len() > 0 {
        run_keeps_words_filled(st, s.drop_last());
    }
}

/// Every word of a line has at least one character.
pub proof fn words_are_not_empty(line: Seq<char>)
    ensures
        forall|i: int| 0 <= i < words(line).len() ==> (#[trigger] words(line)[i]).len() > 0,
{
    run_keeps_words_filled(start(), line);
}

} // verus!
