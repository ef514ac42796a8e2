//! Taking output redirections out of an argument list.
//!
//! A redirection is an operator word (`>`, `1>`, `>>`, `1>>`, `2>`, `2>>`)
//! followed by one word that names a file. Nothing is opened here: the result
//! names the files and says how each is to be opened.

use vstd::prelude::*;
use crate::text::{chars_of, texts};

verus! {

/// The output stream that a redirection replaces.
#[derive(Clone, Copy, Debug, PartialEq, Eq, Structural)]
pub enum Stream {
    Stdout,
    Stderr,
}

/// A file to write a stream to.
#[derive(Debug)]
pub struct FileTarget {
    /// The file's name as written on the line.
    pub path: String,
    /// `true`: create and append; `false`: create and truncate.
    pub append: bool,
}

/// The mathematical value of a [`FileTarget`].
pub struct Target {
    pub path: Seq<char>,
    pub append: bool,
}

impl View for FileTarget {
    type V = Target;

    open spec fn view(&self) -> Target {
        Target { path: self.path@, append: self.append }
    }
}

/// The value of an optional target.
pub open spec fn target_view(t: Option<FileTarget>) -> Option<Target> {
    match t {
        Some(f) => Some(f@),
        None => None,
    }
}

/// One redirection as written: a stream and the file named for it.
#[derive(Debug)]
pub struct Directive {
    pub stream: Stream,
    pub target: FileTarget,
}

impl View for Directive {
    type V = (Stream, Target);

    open spec fn view(&self) -> (Stream, Target) {
        (self.stream, self.target@)
    }
}

/// The values of a sequence of redirections.
pub open spec fn directive_views(v: Seq<Directive>) -> Seq<(Stream, Target)> {
    v.map_values(|d: Directive| d@)
}

/// An argument list without its redirections, and where each stream goes.
#[derive(Debug)]
pub struct Redirected {
    /// The arguments that are left, in their order.
    pub args: Vec<String>,
    /// Every redirection of the list, in the order written. Each of these
    /// files is to be opened, in this order, also one that a later
    /// redirection of the same stream replaces.
    pub directives: Vec<Directive>,
    /// Where standard output goes, if it is redirected.
    pub stdout: Option<FileTarget>,
    /// Where standard error goes, if it is redirected.
    pub stderr: Option<FileTarget>,
}

/// What a word means as a redirection operator: the stream and whether the
/// file is appended to. `None` for every other word.
pub open spec fn operator(word: Seq<char>) -> Option<(Stream, bool)> {
    if word == seq!['>'] || word == seq!['1', '>'] {
        Some((Stream::Stdout, false))
    } else if word == seq!['>', '>'] || word == seq!['1', '>', '>'] {
        Some((Stream::Stdout, true))
    } else if word == seq!['2', '>'] {
        Some((Stream::Stderr, false))
    } else if word == seq!['2', '>', '>'] {
        Some((Stream::Stderr, true))
    } else {
        None
    }
}

/// Whether a redirection starts at position `i`: an operator with a word
/// after it. An operator that ends the list is an ordinary argument.
pub open spec fn redirects_at(args: Seq<Seq<char>>, i: int) -> bool {
    0 <= i && i + 1 < args.len() && operator(args[i]) is Some
}

/// The arguments from position `i` on that belong to no redirection.
pub open spec fn kept_from(args: Seq<Seq<char>>, i: int) -> Seq<Seq<char>>
    decreases args.len() - i,
{
    if i < 0 || i >= args.len() {
        seq![]
    } else if redirects_at(args, i) {
        kept_from(args, i + 2)
    } else {
        seq![args[i]] + kept_from(args, i + 1)
    }
}

/// The target of `stream` after the redirections from position `i` on, where
/// `found` is its target before them: a later redirection of the same stream
/// replaces an earlier one.
pub open spec fn target_from(
    args: Seq<Seq<char>>,
    i: int,
    stream: Stream,
    found: Option<Target>,
) -> Option<Target>
    decreases args.len() - i,
{
    if i < 0 || i >= args.len() {
        found
    } else if redirects_at(args, i) {
        let op = operator(args[i])->0;
        if op.0 == stream {
            target_from(args, i + 2, stream, Some(Target { path: args[i + 1], append: op.1 }))
        } else {
            target_from(args, i + 2, stream, found)
        }
    } else {
        target_from(args, i + 1, stream, found)
    }
}

/// The redirections from position `i` on, in the order written.
pub open spec fn directives_from(args: Seq<Seq<char>>, i: int) -> Seq<(Stream, Target)>
    decreases args.len() - i,
{
    if i < 0 || i >= args.len() {
        seq![]
    } else if redirects_at(args, i) {
        let op = operator(args[i])->0;
        seq![(op.0, Target { path: args[i + 1], append: op.1 })] + directives_from(args, i + 2)
    } else {
        directives_from(args, i + 1)
    }
}

/// All redirections of a list, in the order written.
pub open spec fn directives(args: Seq<Seq<char>>) -> Seq<(Stream, Target)> {
    directives_from(args, 0)
}

/// The target of `stream` when the redirections `ds` are applied in order to
/// a stream whose target was `found`: each one of that stream replaces it.
pub open spec fn settled(ds: Seq<(Stream, Target)>, stream: Stream, found: Option<Target>) -> Option<
    Target,
>
    decreases ds.len(),
{
    if ds.len() == 0 {
        found
    } else if ds[0].0 == stream {
        settled(ds.skip(1), stream, Some(ds[0].1))
    } else {
        settled(ds.skip(1), stream, found)
    }
}

/// The arguments that are left when the redirections are taken out.
pub open spec fn remaining_args(args: Seq<Seq<char>>) -> Seq<Seq<char>> {
    kept_from(args, 0)
}

/// Where `stream` goes: the target of its last redirection, if it has one.
pub open spec fn redirect_target(args: Seq<Seq<char>>, stream: Stream) -> Option<Target> {
    target_from(args, 0, stream, None)
}

/// Reads a word as a redirection operator.
pub fn parse_operator(word: &str) -> (op: Option<(Stream, bool)>)
    ensures
        op == operator(word@),
{
    let w = chars_of(word);
    let n: usize = w.len();
    if n == 1 && w[0] == '>' {
        assert(w@ =~= seq!['>']);
        Some((Stream::Stdout, false))
    } else if n == 2 && w[0] == '1' && w[1] == '>' {
        assert(w@ =~= seq!['1', '>']);
        Some((Stream::Stdout, false))
    } else if n == 2 && w[0] == '>' && w[1] == '>' {
        assert(w@ =~= seq!['>', '>']);
        Some((Stream::Stdout, true))
    } else if n == 3 && w[0] == '1' && w[1] == '>' && w[2] == '>' {
        assert(w@ =~= seq!['1', '>', '>']);
        Some((Stream::Stdout, true))
    } else if n == 2 && w[0] == '2' && w[1] == '>' {
        assert(w@ =~= seq!['2', '>']);
        Some((Stream::Stderr, false))
    } else if n == 3 && w[0] == '2' && w[1] == '>' && w[2] == '>' {
        assert(w@ =~= seq!['2', '>', '>']);
        Some((Stream::Stderr, true))
    } else {
        assert(operator(w@) is None) by {
            if operator(w@) is Some {
                assert(w@.len() == n);
                assert(w@[0] == w[0]);
                if n >= 2 {
                    assert(w@[1] == w[1]);
                }
                if n >= 3 {
                    assert(w@[2] == w[2]);
                }
            }
        }
        None
    }
}

/// Takes the redirections out of `args`.
///
/// Each operator that has a word after it is removed together with that word.
/// Where a stream is redirected more than once, its last redirection counts;
/// the earlier ones are still listed, since their files are opened too.
pub fn extract_redirection(args: &Vec<String>) -> (r: Redirected)
    ensures
        texts(r.args@) == remaining_args(texts(args@)),
        directive_views(r.directives@) == directives(texts(args@)),
        target_view(r.stdout) == redirect_target(texts(args@), Stream::Stdout),
        target_view(r.stderr) == redirect_target(texts(args@), Stream::Stderr),
{
    let ghost all = texts(args@);
    let mut kept: Vec<String> = Vec::new();
    let mut listed: Vec<Directive> = Vec::new();
    let mut stdout: Option<FileTarget> = None;
    let mut stderr: Option<FileTarget> = None;
    let mut i: usize = 0;
    proof {
        assert(texts(kept@) =~= seq![]);
        assert(seq![] + kept_from(all, 0) =~= kept_from(all, 0));
        assert(directive_views(listed@) =~= seq![]);
        assert(seq![] + directives_from(all, 0) =~= directives_from(all, 0));
    }
    while i < args.len()
        invariant
            i <= args.len(),
            all == texts(args@),
            all.len() == args.len(),
            remaining_args(all) == texts(kept@) + kept_from(all, i as int),
            directives(all) == directive_views(listed@) + directives_from(all, i as int),
            redirect_target(all, Stream::Stdout) == target_from(
                all,
                i as int,
                Stream::Stdout,
                target_view(stdout),
            ),
            redirect_target(all, Stream::Stderr) == target_from(
                all,
                i as int,
                Stream::Stderr,
                target_view(stderr),
            ),
        decreases args.len() - i,
    {
        assert(all[i as int] == args@[i as int]@);
        let op = parse_operator(args[i].as_str());
        if op.is_some() && i + 1 < args.len() {
            let (stream, append) = op.unwrap();
            assert(all[i + 1] == args@[i + 1]@);
            let target = FileTarget { path: args[i + 1].clone(), append };
            let entry = Directive {
                stream,
                target: FileTarget { path: args[i + 1].clone(), append },
            };
            proof {
                let d = (stream, Target { path: all[i + 1], append });
                assert(directive_views(listed@.push(entry)) =~= directive_views(listed@).push(d));
                assert(directive_views(listed@).push(d) + directives_from(all, i + 2)
                    =~= directive_views(listed@) + (seq![d] + directives_from(all, i + 2)));
            }
            listed.push(entry);
            match stream {
                Stream::Stdout => {
                    stdout = Some(target);
                },
                Stream::Stderr => {
                    stderr = Some(target);
                },
            }
            i += 2;
        } else {
            let word = args[i].clone();
            proof {
                assert(texts(kept@.push(word)) =~= texts(kept@).push(all[i as int]));
                assert(texts(kept@).push(all[i as int]) + kept_from(all, i + 1) =~= texts(kept@)
                    + (seq![all[i as int]] + kept_from(all, i + 1)));
            }
            kept.push(word);
            i += 1;
        }
    }
    proof {
        assert(texts(kept@) + seq![] =~= texts(kept@));
        assert(directive_views(listed@) + seq![] =~= directive_views(listed@));
    }
    Redirected { args: kept, directives: listed, stdout, stderr }
}

/// No word of the list is a redirection operator.
pub open spec fn has_no_operator(args: Seq<Seq<char>>) -> bool {
    forall|i: int| 0 <= i < args.len() ==> operator(#[trigger] args[i]) is None
}

/// From any position on, a list without operators keeps its words and leaves
/// the targets as they are.
pub proof fn plain_words_are_kept(
    args: Seq<Seq<char>>,
    i: int,
    stream: Stream,
    found: Option<Target>,
)
    requires
        has_no_operator(args),
        0 <= i <= args.len(),
    ensures
        kept_from(args, i) == args.skip(i),
        target_from(args, i, stream, found) == found,
    decreases args.len() - i,
{
    if i < args.len() {
        plain_words_are_kept(args, i + 1, stream, found);
        assert(seq![args[i]] + args.skip(i + 1) =~= args.skip(i));
    } else {
        assert(args.skip(i) =~= seq![]);
    }
}

/// Where no word is a redirection operator, nothing is taken out and neither
/// stream is redirected.
pub proof fn without_operators_nothing_changes(args: Seq<Seq<char>>)
    requires
        has_no_operator(args),
    ensures
        remaining_args(args) == args,
        redirect_target(args, Stream::Stdout) is None,
        redirect_target(args, Stream::Stderr) is None,
{
    plain_words_are_kept(args, 0, Stream::Stdout, None);
    plain_words_are_kept(args, 0, Stream::Stderr, None);
    assert(args.skip(0) =~= args);
}

/// A redirection at the end of a list of plain words is taken out and decides
/// its stream, whatever the list redirected before: the last one counts.
pub proof fn redirection_at_the_end(
    args: Seq<Seq<char>>,
    i: int,
    op: Seq<char>,
    of: Stream,
    append: bool,
    file: Seq<char>,
    stream: Stream,
    found: Option<Target>,
)
    requires
        0 <= i <= args.len(),
        operator(op) == Some((of, append)),
        forall|j: int| i <= j < args.len() ==> operator(#[trigger] args[j]) is None,
    ensures
        kept_from(args + seq![op, file], i) == args.skip(i),
        target_from(args + seq![op, file], i, stream, found) == if of == stream {
            Some(Target { path: file, append })
        } else {
            found
        },
    decreases args.len() - i,
{
    let all = args + seq![op, file];
    if i < args.len() {
        assert(all[i] == args[i]);
        redirection_at_the_end(args, i + 1, op, of, append, file, stream, found);
        assert(seq![args[i]] + args.skip(i + 1) =~= args.skip(i));
    } else {
        assert(all[i] == op);
        assert(all[i + 1] == file);
        assert(redirects_at(all, i));
        assert(args.skip(i) =~= seq![]);
        assert(kept_from(all, i + 2) =~= seq![]);
        let hit = Some(Target { path: file, append });
        assert(target_from(all, i + 2, stream, hit) == hit);
        assert(target_from(all, i + 2, stream, found) == found);
    }
}

/// Where a stream goes is decided by the redirections alone, applied in the
/// order written: the last one of the stream counts.
pub proof fn target_is_settled(
    args: Seq<Seq<char>>,
    i: int,
    stream: Stream,
    found: Option<Target>,
)
    requires
        0 <= i,
    ensures
        target_from(args, i, stream, found) == settled(directives_from(args, i), stream, found),
    decreases args.len() - i,
{
    if i < args.len() {
        if redirects_at(args, i) {
            let op = operator(args[i])->0;
            let d = (op.0, Target { path: args[i + 1], append: op.1 });
            let later = directives_from(args, i + 2);
            assert((seq![d] + later).skip(1) =~= later);
            assert((seq![d] + later)[0] == d);
            if op.0 == stream {
                target_is_settled(args, i + 2, stream, Some(d.1));
            } else {
                target_is_settled(args, i + 2, stream, found);
            }
        } else {
            target_is_settled(args, i + 1, stream, found);
        }
    }
}

} // verus!
