//! Planning a pipeline: from a line to the stages to start, and from the
//! outcome of each start to what is done next.
//!
//! Nothing is started here. A caller starts each stage as the plan says and
//! reports back whether that worked.

use vstd::prelude::*;
use crate::quoting::{at_rest, run, split_words, start, words};
use crate::redirection::{
    directive_views, directives, extract_redirection, redirect_target, remaining_args,
    target_view, Directive, FileTarget, Stream, Target,
};
use crate::text::{chars_of, rows, texts};

verus! {

/// One program to start, with its arguments and its three streams.
#[derive(Debug)]
pub struct Stage {
    /// The program's name: the first word of the segment.
    pub program: String,
    /// The words after the name, without redirections.
    pub args: Vec<String>,
    /// Standard input is the output of the stage before; otherwise inherited.
    pub from_previous: bool,
    /// Standard output is a new pipe, read by the stage after.
    pub to_next: bool,
    /// Every redirection of the segment, in the order written. Each of these
    /// files is opened before the stage is started.
    pub directives: Vec<Directive>,
    /// The file that the segment redirects standard output to. It is written
    /// to unless `to_next` is set.
    pub stdout: Option<FileTarget>,
    /// The file that standard error goes to; otherwise inherited.
    pub stderr: Option<FileTarget>,
}

/// The mathematical value of a [`Stage`].
pub struct StageView {
    pub program: Seq<char>,
    pub args: Seq<Seq<char>>,
    pub from_previous: bool,
    pub to_next: bool,
    pub directives: Seq<(Stream, Target)>,
    pub stdout: Option<Target>,
    pub stderr: Option<Target>,
}

impl View for Stage {
    type V = StageView;

    open spec fn view(&self) -> StageView {
        StageView {
            program: self.program@,
            args: texts(self.args@),
            from_previous: self.from_previous,
            to_next: self.to_next,
            directives: directive_views(self.directives@),
            stdout: target_view(self.stdout),
            stderr: target_view(self.stderr),
        }
    }
}

/// The values of a sequence of stages.
pub open spec fn stage_views(v: Seq<Stage>) -> Seq<StageView> {
    v.map_values(|s: Stage| s@)
}

/// Whether the character at position `i` is a bar that cuts the line: a `|`
/// that the word splitter, reading the line from its start, meets outside
/// single quotes, outside double quotes and with no backslash pending.
pub open spec fn cuts_at(line: Seq<char>, i: int) -> bool {
    0 <= i < line.len() && line[i] == '|' && at_rest(run(start(), line.take(i)))
}

/// The pieces of a line between its cutting bars. A quoted or escaped `|` is
/// an ordinary character of its piece. A line with n cutting bars has n + 1
/// pieces, some of them possibly empty.
pub open spec fn segments(line: Seq<char>) -> Seq<Seq<char>>
    decreases line.len(),
{
    if line.len() == 0 {
        seq![seq![]]
    } else {
        let before = segments(line.drop_last());
        if cuts_at(line, line.len() - 1) {
            before.push(seq![])
        } else {
            before.drop_last().push(before.last().push(line.last()))
        }
    }
}

/// The stage that a segment with the words `w` stands for.
pub open spec fn stage_of(w: Seq<Seq<char>>, from_previous: bool, to_next: bool) -> StageView
    recommends
        w.len() > 0,
{
    StageView {
        program: w[0],
        args: remaining_args(w.skip(1)),
        from_previous,
        to_next,
        directives: directives(w.skip(1)),
        stdout: redirect_target(w.skip(1), Stream::Stdout),
        stderr: redirect_target(w.skip(1), Stream::Stderr),
    }
}

/// The stages of the first `k` segments. A segment without words gives no
/// stage. A stage reads from the stage before it, if there is one, and writes
/// to a pipe unless its segment is the last of the line.
pub open spec fn stages_upto(segs: Seq<Seq<char>>, k: int) -> Seq<StageView>
    decreases k,
{
    if k <= 0 {
        seq![]
    } else {
        let before = stages_upto(segs, k - 1);
        let w = words(segs[k - 1]);
        if w.len() == 0 {
            before
        } else {
            before.push(stage_of(w, before.len() > 0, k < segs.len()))
        }
    }
}

/// The stages of a line.
pub open spec fn pipeline(line: Seq<char>) -> Seq<StageView> {
    stages_upto(segments(line), segments(line).len() as int)
}

/// Cuts a line at each `|` that stands outside quotes and is not escaped.
pub fn split_segments(line: &Vec<char>) -> (segs: Vec<Vec<char>>)
    ensures
        rows(segs@) == segments(line@),
{
    let mut done: Vec<Vec<char>> = Vec::new();
    let mut current: Vec<char> = Vec::new();
    let mut in_single = false;
    let mut in_double = false;
    let mut escape = false;
    let mut i: usize = 0;
    proof {
        assert(rows(done@).push(current@) =~= seq![seq![]]);
        assert(line@.take(0).len() == 0);
    }
    while i < line.len()
        invariant
            i <= line.len(),
            segments(line@.take(i as int)) == rows(done@).push(current@),
            run(start(), line@.take(i as int)).in_single == in_single,
            run(start(), line@.take(i as int)).in_double == in_double,
            run(start(), line@.take(i as int)).escape == escape,
        decreases line.len() - i,
    {
        let c = line[i];
        proof {
            let next = line@.take(i + 1);
            assert(next.drop_last() =~= line@.take(i as int));
            assert(next.take(i as int) =~= line@.take(i as int));
            assert(next.last() == c);
            assert(next[i as int] == c);
            assert(rows(done@).push(current@).drop_last() =~= rows(done@));
        }
        if c == '|' && !in_single && !in_double && !escape {
            proof {
                assert(rows(done@.push(current)) =~= rows(done@).push(current@));
            }
            done.push(current);
            current = Vec::new();
        } else {
            current.push(c);
        }
        if in_single {
            if c == '\'' {
                in_single = false;
            }
        } else if escape {
            escape = false;
        } else if c == '\\' {
            escape = true;
        } else if c == '\'' {
            if !in_double {
                in_single = true;
            }
        } else if c == '"' {
            in_double = !in_double;
        }
        i += 1;
    }
    proof {
        assert(line@.take(line.len() as int) =~= line@);
        assert(rows(done@.push(current)) =~= rows(done@).push(current@));
    }
    done.push(current);
    done
}

/// The words after the first.
fn rest_of(w: &Vec<String>) -> (r: Vec<String>)
    requires
        w.len() > 0,
    ensures
        texts(r@) == texts(w@).skip(1),
{
    let mut r: Vec<String> = Vec::new();
    let mut i: usize = 1;
    while i < w.len()
        invariant
            1 <= i <= w.len(),
            r.len() == i - 1,
            forall|j: int| 0 <= j < r.len() ==> r@[j]@ == w@[j + 1]@,
        decreases w.len() - i,
    {
        r.push(w[i].clone());
        i += 1;
    }
    assert(texts(r@) =~= texts(w@).skip(1));
    r
}

/// Plans the stages of a line.
///
/// The line is cut at every `|` that stands outside quotes and is not
/// escaped; each piece is split into words; a piece without words is passed
/// over. The first word names the program, and the
/// redirections among the others are taken out.
pub fn plan_pipeline(input: &str) -> (plan: Vec<Stage>)
    ensures
        stage_views(plan@) == pipeline(input@),
{
    let line = chars_of(input);
    let segs = split_segments(&line);
    let mut plan: Vec<Stage> = Vec::new();
    let mut k: usize = 0;
    proof {
        assert(stage_views(plan@) =~= seq![]);
    }
    while k < segs.len()
        invariant
            k <= segs.len(),
            rows(segs@) == segments(input@),
            stage_views(plan@) == stages_upto(rows(segs@), k as int),
        decreases segs.len() - k,
    {
        assert(rows(segs@)[k as int] == segs@[k as int]@);
        let w = split_words(&segs[k]);
        if w.len() > 0 {
            let rest = rest_of(&w);
            let r = extract_redirection(&rest);
            assert(texts(w@)[0] == w@[0]@);
            let stage = Stage {
                program: w[0].clone(),
                args: r.args,
                from_previous: plan.len() > 0,
                to_next: k + 1 < segs.len(),
                directives: r.directives,
                stdout: r.stdout,
                stderr: r.stderr,
            };
            proof {
                assert(stage_views(plan@.push(stage)) =~= stage_views(plan@).push(stage@));
            }
            plan.push(stage);
        }
        k += 1;
    }
    plan
}

/// What the caller of a plan does next.
#[derive(Clone, Copy, Debug, PartialEq, Eq, Structural)]
pub enum Action {
    /// Start the stage with this index.
    Spawn(usize),
    /// Say that the program of the stage with this index was not found, and
    /// stop: the stages after it are not started, those before it are left
    /// running and nothing is waited for.
    Report(usize),
    /// Wait until the stage with this index, the last one, has ended; then stop.
    Wait(usize),
    /// Stop: there is nothing to do.
    Finish,
}

/// The first thing to do with a plan of `stages` stages.
pub open spec fn first_action_of(stages: nat) -> Action {
    if stages == 0 {
        Action::Finish
    } else {
        Action::Spawn(0)
    }
}

/// What to do when the start of stage `index` has succeeded (`started`) or failed.
pub open spec fn next_action_of(stages: nat, index: nat, started: bool) -> Action {
    if !started {
        Action::Report(index as usize)
    } else if index + 1 < stages {
        Action::Spawn((index + 1) as usize)
    } else {
        Action::Wait(index as usize)
    }
}

/// The first thing to do with a plan: start its first stage, if it has one.
pub fn first_action(plan: &Vec<Stage>) -> (a: Action)
    ensures
        a == first_action_of(plan@.len()),
{
    if plan.len() == 0 {
        Action::Finish
    } else {
        Action::Spawn(0)
    }
}

/// What to do after the start of stage `index` has returned.
///
/// A stage is started only when the one before it has been: after a failure
/// nothing more is started. Only the last stage is waited for.
pub fn next_action(plan: &Vec<Stage>, index: usize, started: bool) -> (a: Action)
    requires
        index < plan.len(),
    ensures
        a == next_action_of(plan@.len(), index as nat, started),
{
    if !started {
        Action::Report(index)
    } else if index + 1 < plan.len() {
        Action::Spawn(index + 1)
    } else {
        Action::Wait(index)
    }
}

/// The line that says that a program could not be started.
pub fn not_found_message(program: &str) -> (m: String)
    ensures
        m@ == program@ + ": command not found"@,
{
    let mut m = String::from_str(program);
    m.append(": command not found");
    m
}

/// A line in which no bar cuts is one piece: the line itself. So a line
/// without any `|`, or with every `|` quoted or escaped, is a single segment.
pub proof fn line_without_cut_is_one_segment(line: Seq<char>)
    requires
        forall|i: int| 0 <= i < line.len() ==> !cuts_at(line, i),
    ensures
        segments(line) == seq![line],
    decreases line.len(),
{
    if line.len() == 0 {
        assert(line =~= seq![]);
    } else {
        let shorter = line.drop_last();
        assert forall|i: int| 0 <= i < shorter.len() implies !cuts_at(shorter, i) by {
            assert(shorter.take(i) =~= line.take(i));
            assert(!cuts_at(line, i));
        }
        line_without_cut_is_one_segment(shorter);
        assert(!cuts_at(line, line.len() - 1));
        assert(shorter.push(line.last()) =~= line);
        assert(seq![shorter].drop_last() =~= seq![]);
        assert(seq![shorter].drop_last().push(line) =~= seq![line]);
    }
}

/// A bar outside quotes cuts: if `a` ends outside quotes with no backslash
/// pending and no bar of `b` cuts, the pieces of `a`, a `|` and `b` are the
/// pieces of `a` followed by `b`.
pub proof fn free_bar_cuts(a: Seq<char>, b: Seq<char>)
    requires
        at_rest(run(start(), a)),
        forall|j: int| a.len() < j ==> !cuts_at(a.push('|') + b, j),
    ensures
        segments(a.push('|') + b) == segments(a).push(b),
    decreases b.len(),
{
    let line = a.push('|') + b;
    if b.len() == 0 {
        assert(line =~= a.push('|'));
        assert(line.drop_last() =~= a);
        assert(line.take(line.len() - 1) =~= a);
        assert(b =~= seq![]);
    } else {
        let shorter = a.push('|') + b.drop_last();
        assert(line.drop_last() =~= shorter);
        assert forall|j: int| a.len() < j implies !cuts_at(shorter, j) by {
            if j < shorter.len() {
                assert(shorter.take(j) =~= line.take(j));
                assert(shorter[j] == line[j]);
                assert(!cuts_at(line, j));
            }
        }
        free_bar_cuts(a, b.drop_last());
        assert(!cuts_at(line, line.len() - 1));
        assert(segments(a).push(b.drop_last()).drop_last() =~= segments(a));
        assert(b.drop_last().push(line.last()) =~= b);
    }
}

} // verus!
