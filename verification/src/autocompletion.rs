//! Completion of command names: which names a prefix can stand for, and how
//! far a set of candidates agrees.

use vstd::prelude::*;
use crate::quoting::is_blank;
use crate::text::{chars_of, rows, string_of, strings_of, texts};

verus! {

/// `s` begins with `p`.
pub open spec fn starts_with(s: Seq<char>, p: Seq<char>) -> bool {
    p.len() <= s.len() && forall|i: int| 0 <= i < p.len() ==> s[i] == p[i]
}

/// `a` comes before `b` in the dictionary order of their characters, which is
/// the order of Rust's strings.
pub open spec fn lex_less(a: Seq<char>, b: Seq<char>) -> bool
    decreases a.len(),
{
    if b.len() == 0 {
        false
    } else if a.len() == 0 {
        true
    } else if a[0] == b[0] {
        lex_less(a.skip(1), b.skip(1))
    } else {
        a[0] < b[0]
    }
}

/// Each entry comes before all later ones: ascending, with nothing twice.
pub open spec fn strictly_sorted(v: Seq<Seq<char>>) -> bool {
    forall|i: int, j: int| 0 <= i < j < v.len() ==> lex_less(#[trigger] v[i], #[trigger] v[j])
}

/// The names of the commands that the interpreter runs itself.
pub open spec fn is_builtin(name: Seq<char>) -> bool {
    name == "exit"@ || name == "echo"@ || name == "type"@ || name == "pwd"@ || name == "cd"@
}

/// The text holds a blank.
pub open spec fn has_blank(s: Seq<char>) -> bool {
    exists|i: int| 0 <= i < s.len() && is_blank(#[trigger] s[i])
}

/// `name` completes `prefix`: the prefix is a single word so far, the name
/// begins with it, and the name is a builtin or one of the executables.
pub open spec fn is_completion(
    prefix: Seq<char>,
    executables: Seq<Seq<char>>,
    name: Seq<char>,
) -> bool {
    &&& !has_blank(prefix)
    &&& starts_with(name, prefix)
    &&& (is_builtin(name) || executables.contains(name))
}

/// The text holds a space.
pub open spec fn has_space(s: Seq<char>) -> bool {
    exists|i: int| 0 <= i < s.len() && #[trigger] s[i] == ' '
}

/// `entry` is offered to the line editor for `prefix` on `line`: the line is
/// a single word so far, and the entry is a name followed by one space, where
/// the name begins with the prefix and is `exit`, `echo` or an executable.
pub open spec fn is_line_candidate(
    line: Seq<char>,
    prefix: Seq<char>,
    executables: Seq<Seq<char>>,
    entry: Seq<char>,
) -> bool {
    &&& !has_space(line)
    &&& entry.len() > 0
    &&& entry.last() == ' '
    &&& starts_with(entry.drop_last(), prefix)
    &&& (entry.drop_last() == "exit"@ || entry.drop_last() == "echo"@ || executables.contains(
        entry.drop_last(),
    ))
}

/// `p` is a prefix of every candidate.
pub open spec fn common_prefix(p: Seq<char>, candidates: Seq<Seq<char>>) -> bool {
    forall|i: int| 0 <= i < candidates.len() ==> starts_with(#[trigger] candidates[i], p)
}

/// `p` is the longest common prefix of the candidates: a prefix of each of
/// them that no other such prefix exceeds in length; of no candidates, the
/// empty text.
pub open spec fn is_lcp(p: Seq<char>, candidates: Seq<Seq<char>>) -> bool {
    if candidates.len() == 0 {
        p.len() == 0
    } else {
        &&& common_prefix(p, candidates)
        &&& forall|q: Seq<char>| common_prefix(q, candidates) ==> q.len() <= p.len()
    }
}

/// How two texts stand in the dictionary order.
#[derive(Clone, Copy, Debug, PartialEq, Eq, Structural)]
pub enum Rank {
    Before,
    Same,
    After,
}

/// The dictionary order never puts a text before itself.
pub proof fn lex_less_irreflexive(a: Seq<char>)
    ensures
        !lex_less(a, a),
    decreases a.len(),
{
    if a.len() > 0 {
        lex_less_irreflexive(a.skip(1));
    }
}

/// The dictionary order is transitive.
pub proof fn lex_less_transitive(a: Seq<char>, b: Seq<char>, c: Seq<char>)
    requires
        lex_less(a, b),
        lex_less(b, c),
    ensures
        lex_less(a, c),
    decreases a.len(),
{
    if a.len() > 0 && a[0] == b[0] && b[0] == c[0] {
        lex_less_transitive(a.skip(1), b.skip(1), c.skip(1));
    }
}

/// Compares two texts in the dictionary order.
pub fn rank(a: &Vec<char>, b: &Vec<char>) -> (r: Rank)
    ensures
        r == Rank::Before <==> lex_less(a@, b@),
        r == Rank::Same <==> a@ == b@,
        r == Rank::After <==> lex_less(b@, a@),
{
    let mut i: usize = 0;
    proof {
        assert(a@.skip(0) =~= a@);
        assert(b@.skip(0) =~= b@);
    }
    while i < a.len() && i < b.len()
        invariant
            i <= a.len(),
            i <= b.len(),
            a@.take(i as int) == b@.take(i as int),
            lex_less(a@, b@) == lex_less(a@.skip(i as int), b@.skip(i as int)),
            lex_less(b@, a@) == lex_less(b@.skip(i as int), a@.skip(i as int)),
        decreases a.len() - i,
    {
        let x = a[i];
        let y = b[i];
        proof {
            assert(a@.skip(i as int)[0] == x);
            assert(b@.skip(i as int)[0] == y);
        }
        if x != y {
            proof {
                if a@ == b@ {
                    assert(a@[i as int] == b@[i as int]);
                }
            }
            if x < y {
                return Rank::Before;
            } else {
                return Rank::After;
            }
        }
        proof {
            assert(a@.skip(i as int).skip(1) =~= a@.skip(i + 1));
            assert(b@.skip(i as int).skip(1) =~= b@.skip(i + 1));
            assert(a@.take(i + 1) =~= a@.take(i as int).push(x));
            assert(b@.take(i + 1) =~= b@.take(i as int).push(y));
        }
        i += 1;
    }
    proof {
        lex_less_irreflexive(a@);
        if i == a.len() {
            assert(a@.take(i as int) =~= a@);
        }
        if i == b.len() {
            assert(b@.take(i as int) =~= b@);
        }
    }
    if i == a.len() && i == b.len() {
        Rank::Same
    } else if i == a.len() {
        Rank::Before
    } else {
        Rank::After
    }
}

/// Whether `s` begins with `p`.
pub fn begins_with(s: &Vec<char>, p: &Vec<char>) -> (b: bool)
    ensures
        b == starts_with(s@, p@),
{
    if p.len() > s.len() {
        return false;
    }
    let mut i: usize = 0;
    while i < p.len()
        invariant
            i <= p.len() <= s.len(),
            forall|j: int| 0 <= j < i ==> s@[j] == p@[j],
        decreases p.len() - i,
    {
        if s[i] != p[i] {
            return false;
        }
        i += 1;
    }
    true
}

/// Whether a text holds a blank.
pub fn contains_blank(s: &Vec<char>) -> (b: bool)
    ensures
        b == has_blank(s@),
{
    let mut i: usize = 0;
    while i < s.len()
        invariant
            i <= s.len(),
            forall|j: int| 0 <= j < i ==> !is_blank(#[trigger] s@[j]),
        decreases s.len() - i,
    {
        let c = s[i];
        if c == ' ' || c == '\t' || c == '\n' || c == '\r' {
            return true;
        }
        i += 1;
    }
    false
}

/// Puts `name` at its place in a sorted list, unless the list holds it already.
fn insert_sorted(list: &mut Vec<Vec<char>>, name: Vec<char>)
    requires
        strictly_sorted(rows(old(list)@)),
    ensures
        strictly_sorted(rows(final(list)@)),
        forall|s: Seq<char>| #[trigger]
            rows(final(list)@).contains(s) <==> (rows(old(list)@).contains(s) || s == name@),
{
    let ghost before = rows(list@);
    let mut p: usize = 0;
    let mut placed = false;
    while p < list.len() && !placed
        invariant
            p <= list.len(),
            rows(list@) == before,
            strictly_sorted(before),
            before.len() == list.len(),
            forall|j: int| 0 <= j < p ==> lex_less(#[trigger] before[j], name@),
            placed ==> p < list.len() && lex_less(name@, before[p as int]),
        decreases list.len() - p + (if placed { 0int } else { 1int }),
    {
        assert(before[p as int] == list@[p as int]@);
        match rank(&list[p], &name) {
            Rank::Before => {
                p += 1;
            },
            Rank::Same => {
                proof {
                    assert forall|s: Seq<char>| s == name@ implies before.contains(s) by {
                        assert(before[p as int] == s);
                    }
                }
                return ;
            },
            Rank::After => {
                placed = true;
            },
        }
    }
    let ghost text = name@;
    list.insert(p, name);
    proof {
        let after = rows(list@);
        assert(after =~= before.insert(p as int, text));
        assert forall|i: int, j: int| 0 <= i < j < after.len() implies lex_less(
            #[trigger] after[i],
            #[trigger] after[j],
        ) by {
            if j < p {
                assert(after[i] == before[i] && after[j] == before[j]);
            } else if j == p {
                assert(after[i] == before[i]);
            } else if i == p {
                assert(after[j] == before[j - 1]);
                if j - 1 > p {
                    lex_less_transitive(text, before[p as int], before[j - 1]);
                }
            } else if i < p {
                assert(after[i] == before[i] && after[j] == before[j - 1]);
                if j - 1 > i {
                } else {
                    assert(false);
                }
            } else {
                assert(after[i] == before[i - 1] && after[j] == before[j - 1]);
            }
        }
        assert forall|s: Seq<char>| #[trigger]
            after.contains(s) <==> (before.contains(s) || s == text) by {
            if after.contains(s) {
                let k = choose|k: int| 0 <= k < after.len() && after[k] == s;
                if k < p {
                    assert(before[k] == s);
                } else if k > p {
                    assert(before[k - 1] == s);
                }
            }
            if before.contains(s) {
                let k = choose|k: int| 0 <= k < before.len() && before[k] == s;
                if k < p {
                    assert(after[k] == s);
                } else {
                    assert(after[k + 1] == s);
                }
            }
            if s == text {
                assert(after[p as int] == s);
            }
        }
    }
}

/// Adds `name` to a sorted list if it begins with `prefix`.
fn add_if_matching(list: &mut Vec<Vec<char>>, prefix: &Vec<char>, name: &str)
    requires
        strictly_sorted(rows(old(list)@)),
    ensures
        strictly_sorted(rows(final(list)@)),
        forall|s: Seq<char>| #[trigger]
            rows(final(list)@).contains(s) <==> (rows(old(list)@).contains(s) || (s == name@
                && starts_with(name@, prefix@))),
{
    let n = chars_of(name);
    if begins_with(&n, prefix) {
        insert_sorted(list, n);
    }
}

/// The names that `prefix` can be completed to, in dictionary order, each once.
///
/// These are the builtins and the given executables that begin with the
/// prefix. A prefix that holds a blank has no completions: only the first
/// word of a line is completed.
pub fn find_completions(prefix: &str, executables: &Vec<String>) -> (matches: Vec<String>)
    ensures
        has_blank(prefix@) ==> matches@.len() == 0,
        strictly_sorted(texts(matches@)),
        forall|s: Seq<char>|
            texts(matches@).contains(s) <==> is_completion(prefix@, texts(executables@), s),
{
    let p = chars_of(prefix);
    let mut list: Vec<Vec<char>> = Vec::new();
    if contains_blank(&p) {
        let none: Vec<String> = Vec::new();
        assert(texts(none@).len() == 0);
        return none;
    }
    add_if_matching(&mut list, &p, "exit");
    add_if_matching(&mut list, &p, "echo");
    add_if_matching(&mut list, &p, "type");
    add_if_matching(&mut list, &p, "pwd");
    add_if_matching(&mut list, &p, "cd");
    let ghost execs = texts(executables@);
    let mut k: usize = 0;
    while k < executables.len()
        invariant
            k <= executables.len(),
            execs == texts(executables@),
            strictly_sorted(rows(list@)),
            forall|s: Seq<char>| #[trigger]
                rows(list@).contains(s) <==> (starts_with(s, p@) && (is_builtin(s)
                    || execs.take(k as int).contains(s))),
        decreases executables.len() - k,
    {
        let ghost seen = execs.take(k as int);
        let ghost held = rows(list@);
        assert(execs[k as int] == executables@[k as int]@);
        add_if_matching(&mut list, &p, executables[k].as_str());
        k += 1;
        proof {
            let next = execs.take(k as int);
            assert(next =~= seen.push(execs[k - 1]));
            assert forall|s: Seq<char>| #[trigger]
                rows(list@).contains(s) <==> (starts_with(s, p@) && (is_builtin(s)
                    || next.contains(s))) by {
                assert(rows(list@).contains(s) <==> (held.contains(s) || (s == execs[k - 1]
                    && starts_with(s, p@))));
                assert(held.contains(s) <==> (starts_with(s, p@) && (is_builtin(s)
                    || seen.contains(s))));
                if seen.contains(s) {
                    let j = choose|j: int| 0 <= j < seen.len() && seen[j] == s;
                    assert(next[j] == s);
                }
                if s == execs[k - 1] {
                    assert(next[k - 1] == s);
                }
                if next.contains(s) {
                    let j = choose|j: int| 0 <= j < next.len() && next[j] == s;
                    if j < k - 1 {
                        assert(seen[j] == s);
                    }
                }
            }
        }
    }
    proof {
        assert(execs.take(k as int) =~= execs);
    }
    strings_of(&list)
}

/// The longest text that every candidate begins with; the empty text where
/// there are no candidates or they share nothing.
///
/// The first candidate is cut back from its end until every candidate begins
/// with what is left.
pub fn find_lcp(matches: &Vec<String>) -> (prefix: String)
    ensures
        is_lcp(prefix@, texts(matches@)),
{
    if matches.len() == 0 {
        return String::new();
    }
    let ghost all = texts(matches@);
    assert(all[0] == matches@[0]@);
    let mut prefix = chars_of(matches[0].as_str());
    let mut k: usize = 0;
    while k < matches.len()
        invariant
            k <= matches.len(),
            all == texts(matches@),
            all.len() == matches.len(),
            starts_with(all[0], prefix@),
            forall|i: int| 0 <= i < k ==> starts_with(#[trigger] all[i], prefix@),
            forall|q: Seq<char>| #[trigger]
                common_prefix(q, all) ==> starts_with(prefix@, q),
        decreases matches.len() - k,
    {
        assert(all[k as int] == matches@[k as int]@);
        let candidate = chars_of(matches[k].as_str());
        while !begins_with(&candidate, &prefix)
            invariant
                k < matches.len(),
                all == texts(matches@),
                candidate@ == all[k as int],
                starts_with(all[0], prefix@),
                forall|i: int| 0 <= i < k ==> starts_with(#[trigger] all[i], prefix@),
                forall|q: Seq<char>| #[trigger]
                    common_prefix(q, all) ==> starts_with(prefix@, q),
            decreases prefix.len(),
        {
            let ghost longer = prefix@;
            prefix.pop();
            proof {
                assert(prefix@ =~= longer.drop_last());
                assert forall|q: Seq<char>| #[trigger] common_prefix(q, all) implies starts_with(
                    prefix@,
                    q,
                ) by {
                    assert(starts_with(longer, q));
                    assert(starts_with(all[k as int], q));
                    if q.len() == longer.len() {
                        assert(starts_with(candidate@, longer));
                    }
                }
            }
        }
        k += 1;
    }
    let result = string_of(&prefix);
    proof {
        assert(common_prefix(result@, all));
    }
    result
}

/// Two longest common prefixes of the same candidates are the same text.
pub proof fn lcp_unique(p: Seq<char>, q: Seq<char>, candidates: Seq<Seq<char>>)
    requires
        is_lcp(p, candidates),
        is_lcp(q, candidates),
    ensures
        p == q,
{
    if candidates.len() > 0 {
        assert(starts_with(candidates[0], p));
        assert(starts_with(candidates[0], q));
        assert(p.len() == q.len());
    }
    assert(p =~= q);
}

/// The longest common prefix does not depend on the order of the candidates,
/// nor on how often each occurs: lists with the same members have the same one.
pub proof fn lcp_order_independent(p: Seq<char>, a: Seq<Seq<char>>, b: Seq<Seq<char>>)
    requires
        is_lcp(p, a),
        forall|s: Seq<char>| a.contains(s) <==> b.contains(s),
    ensures
        is_lcp(p, b),
{
    if a.len() == 0 {
        if b.len() > 0 {
            assert(b.contains(b[0]));
            assert(false);
        }
    } else {
        assert(a.contains(a[0]));
        assert(b.len() > 0);
        assert forall|q: Seq<char>| common_prefix(q, b) <==> common_prefix(q, a) by {
            if common_prefix(q, b) {
                assert forall|i: int| 0 <= i < a.len() implies starts_with(#[trigger] a[i], q) by {
                    assert(a.contains(a[i]));
                    let j = choose|j: int| 0 <= j < b.len() && b[j] == a[i];
                    assert(starts_with(b[j], q));
                }
            }
            if common_prefix(q, a) {
                assert forall|i: int| 0 <= i < b.len() implies starts_with(#[trigger] b[i], q) by {
                    assert(b.contains(b[i]));
                    let j = choose|j: int| 0 <= j < a.len() && a[j] == b[i];
                    assert(starts_with(a[j], q));
                }
            }
        }
    }
}

/// Taking the longest common prefix again changes nothing: the longest common
/// prefix of a non-empty list is its own longest common prefix.
pub proof fn lcp_idempotent(p: Seq<char>, candidates: Seq<Seq<char>>)
    requires
        is_lcp(p, candidates),
    ensures
        is_lcp(p, seq![p]),
{
    let one = seq![p];
    assert(common_prefix(p, one));
    assert forall|q: Seq<char>| common_prefix(q, one) implies q.len() <= p.len() by {
        assert(starts_with(one[0], q));
    }
}

/// A list in strict dictionary order holds nothing twice.
pub proof fn sorted_has_no_duplicates(v: Seq<Seq<char>>, i: int, j: int)
    requires
        strictly_sorted(v),
        0 <= i < v.len(),
        0 <= j < v.len(),
        i != j,
    ensures
        v[i] != v[j],
{
    lex_less_irreflexive(v[i]);
    if i < j {
        assert(lex_less(v[i], v[j]));
    } else {
        assert(lex_less(v[j], v[i]));
    }
}

/// Whether a text holds a space.
pub fn contains_space(s: &Vec<char>) -> (b: bool)
    ensures
        b == has_space(s@),
{
    let mut i: usize = 0;
    while i < s.len()
        invariant
            i <= s.len(),
            forall|j: int| 0 <= j < i ==> #[trigger] s@[j] != ' ',
        decreases s.len() - i,
    {
        if s[i] == ' ' {
            return true;
        }
        i += 1;
    }
    false
}

/// Adds `name` and a space to a sorted list if the name begins with `prefix`.
fn add_entry_if_matching(list: &mut Vec<Vec<char>>, prefix: &Vec<char>, name: &str)
    requires
        strictly_sorted(rows(old(list)@)),
    ensures
        strictly_sorted(rows(final(list)@)),
        forall|s: Seq<char>| #[trigger]
            rows(final(list)@).contains(s) <==> (rows(old(list)@).contains(s) || (s.len() > 0
                && s.last() == ' ' && s.drop_last() == name@ && starts_with(name@, prefix@))),
{
    let mut n = chars_of(name);
    if begins_with(&n, prefix) {
        n.push(' ');
        proof {
            assert(n@.drop_last() =~= name@);
            assert forall|s: Seq<char>|
                (s.len() > 0 && s.last() == ' ' && s.drop_last() == name@) implies s == n@ by {
                assert(s =~= s.drop_last().push(s.last()));
            }
        }
        insert_sorted(list, n);
    }
}

/// The entries that a line editor offers for the word before the cursor, in
/// dictionary order, each once.
///
/// `prefix` is the part of `line` before the cursor. Each entry is a name
/// with a space after it; the names are `exit`, `echo` and the given
/// executables, as far as they begin with the prefix. A line that holds a
/// space gets no entries.
pub fn complete_line(line: &str, prefix: &str, executables: &Vec<String>) -> (entries: Vec<
    String,
>)
    ensures
        strictly_sorted(texts(entries@)),
        forall|s: Seq<char>|
            texts(entries@).contains(s) <==> is_line_candidate(
                line@,
                prefix@,
                texts(executables@),
                s,
            ),
{
    let whole = chars_of(line);
    if contains_space(&whole) {
        let none: Vec<String> = Vec::new();
        assert(texts(none@).len() == 0);
        return none;
    }
    let p = chars_of(prefix);
    let mut list: Vec<Vec<char>> = Vec::new();
    add_entry_if_matching(&mut list, &p, "exit");
    add_entry_if_matching(&mut list, &p, "echo");
    let ghost execs = texts(executables@);
    let mut k: usize = 0;
    while k < executables.len()
        invariant
            k <= executables.len(),
            execs == texts(executables@),
            !has_space(line@),
            p@ == prefix@,
            strictly_sorted(rows(list@)),
            forall|s: Seq<char>| #[trigger]
                rows(list@).contains(s) <==> is_line_candidate(
                    line@,
                    p@,
                    execs.take(k as int),
                    s,
                ),
        decreases executables.len() - k,
    {
        let ghost seen = execs.take(k as int);
        let ghost held = rows(list@);
        assert(execs[k as int] == executables@[k as int]@);
        add_entry_if_matching(&mut list, &p, executables[k].as_str());
        k += 1;
        proof {
            let next = execs.take(k as int);
            assert(next =~= seen.push(execs[k - 1]));
            assert forall|s: Seq<char>| #[trigger]
                rows(list@).contains(s) <==> is_line_candidate(line@, p@, next, s) by {
                assert(rows(list@).contains(s) <==> (held.contains(s) || (s.len() > 0 && s.last()
                    == ' ' && s.drop_last() == execs[k - 1] && starts_with(execs[k - 1], p@))));
                assert(held.contains(s) <==> is_line_candidate(line@, p@, seen, s));
                if s.len() > 0 {
                    let name = s.drop_last();
                    if seen.contains(name) {
                        let j = choose|j: int| 0 <= j < seen.len() && seen[j] == name;
                        assert(next[j] == name);
                    }
                    if name == execs[k - 1] {
                        assert(next[k - 1] == name);
                    }
                    if next.contains(name) {
                        let j = choose|j: int| 0 <= j < next.len() && next[j] == name;
                        if j < k - 1 {
                            assert(seen[j] == name);
                        }
                    }
                }
            }
        }
    }
    proof {
        assert(execs.take(k as int) =~= execs);
    }
    strings_of(&list)
}

} // verus!
