//! Command lines of the programs to run.
use crate::path::FilePath;
use crate::text::texts;
use vstd::prelude::*;

verus! {

/// An argument of a program: text, or a path handed on byte for byte.
#[derive(Debug, PartialEq, Eq)]
pub enum Arg {
    Text(String),
    Path(FilePath),
}

/// What an [`Arg`] says.
pub enum ArgView {
    Text(Seq<char>),
    Path(Seq<u8>),
}

impl View for Arg {
    type V = ArgView;

    open spec fn view(&self) -> ArgView {
        match *self {
            Arg::Text(text) => ArgView::Text(text@),
            Arg::Path(path) => ArgView::Path(path@),
        }
    }
}

/// Where a standard stream of a program leads.
#[derive(Debug, Clone, Copy, PartialEq, Eq, Structural)]
pub enum Stdio {
    /// Shared with our own process.
    Inherit,
    /// Nowhere.
    Null,
    /// To a pipe of ours.
    Piped,
}

/// A program to run, with its arguments and standard streams.
#[derive(Debug, PartialEq, Eq)]
pub struct CommandLine {
    pub program: Arg,
    pub args: Vec<Arg>,
    pub stdin: Stdio,
    pub stdout: Stdio,
    pub stderr: Stdio,
}

/// What a [`CommandLine`] says.
pub struct CommandView {
    pub program: ArgView,
    pub args: Seq<ArgView>,
    pub stdin: Stdio,
    pub stdout: Stdio,
    pub stderr: Stdio,
}

/// What a list of arguments says.
pub open spec fn args_view(args: Seq<Arg>) -> Seq<ArgView> {
    args.map_values(|arg: Arg| arg@)
}

/// Texts as arguments.
pub open spec fn words(list: Seq<&str>) -> Seq<ArgView> {
    list.map_values(|text: &str| ArgView::Text(text@))
}

/// Texts as arguments.
pub open spec fn text_args(list: Seq<Seq<char>>) -> Seq<ArgView> {
    list.map_values(|text: Seq<char>| ArgView::Text(text))
}

impl View for CommandLine {
    type V = CommandView;

    open spec fn view(&self) -> CommandView {
        CommandView {
            program: self.program@,
            args: args_view(self.args@),
            stdin: self.stdin,
            stdout: self.stdout,
            stderr: self.stderr,
        }
    }
}

/// Add an argument.
pub(crate) fn push_arg(args: &mut Vec<Arg>, arg: Arg)
    ensures
        args_view(final(args)@) == args_view(old(args)@).push(arg@),
{
    args.push(arg);
    assert(args_view(args@) =~= args_view(old(args)@).push(arg@));
}

/// Add a text as an argument.
pub(crate) fn push_text(args: &mut Vec<Arg>, text: &str)
    ensures
        args_view(final(args)@) == args_view(old(args)@).push(ArgView::Text(text@)),
{
    push_arg(args, Arg::Text(text.to_string()));
}

/// Add a path as an argument.
pub(crate) fn push_path(args: &mut Vec<Arg>, path: &FilePath)
    ensures
        args_view(final(args)@) == args_view(old(args)@).push(ArgView::Path(path@)),
{
    push_arg(args, Arg::Path(path.clone()));
}

/// Add several texts as arguments.
pub(crate) fn push_words<const N: usize>(args: &mut Vec<Arg>, list: [&str; N])
    ensures
        args_view(final(args)@) == args_view(old(args)@) + words(list@),
{
    let mut i: usize = 0;
    assert(args_view(args@) + words(list@.take(0)) =~= args_view(old(args)@));
    while i < N
        invariant
            i <= N,
            list@.len() == N,
            args_view(args@) == args_view(old(args)@) + words(list@.take(i as int)),
        decreases N - i,
    {
        let ghost before = args_view(args@);
        push_text(args, list[i]);
        assert(words(list@.take(i + 1)) =~= words(list@.take(i as int)).push(
            ArgView::Text(list@[i as int]@),
        ));
        assert(before.push(ArgView::Text(list@[i as int]@)) =~= args_view(old(args)@) + words(
            list@.take(i + 1),
        ));
        i += 1;
    }
    assert(list@.take(N as int) =~= list@);
}

/// Add the strings of a list as arguments.
pub(crate) fn push_strings(args: &mut Vec<Arg>, list: &Vec<String>)
    ensures
        args_view(final(args)@) == args_view(old(args)@) + text_args(texts(list@)),
{
    let mut i: usize = 0;
    let ghost wanted = text_args(texts(list@));
    assert(args_view(args@) + wanted.take(0) =~= args_view(old(args)@));
    while i < list.len()
        invariant
            i <= list@.len(),
            wanted == text_args(texts(list@)),
            args_view(args@) == args_view(old(args)@) + wanted.take(i as int),
        decreases list@.len() - i,
    {
        let ghost before = args_view(args@);
        push_text(args, list[i].as_str());
        assert(wanted.take(i + 1) =~= wanted.take(i as int).push(
            ArgView::Text(list@[i as int]@),
        ));
        assert(before.push(ArgView::Text(list@[i as int]@)) =~= args_view(old(args)@)
            + wanted.take(i + 1));
        i += 1;
    }
    assert(wanted.take(i as int) =~= wanted);
}

/// Whether `option` stands among the arguments with `value` directly behind it.
pub open spec fn given(args: Seq<ArgView>, option: Seq<char>, value: ArgView) -> bool {
    exists|i: int|
        0 <= i < args.len() - 1 && #[trigger] args[i] == ArgView::Text(option) && args[i + 1]
            == value
}

/// Whether `option` stands among the arguments with a text directly behind it that
/// consists of `before`, the number `n` and `after`.
pub open spec fn given_number(
    args: Seq<ArgView>,
    option: Seq<char>,
    before: Seq<char>,
    n: nat,
    after: Seq<char>,
) -> bool {
    exists|value: Seq<char>| #[trigger]
        given(args, option, ArgView::Text(value)) && crate::text::tells(value, before, n, after)
}

/// Whether two lists of arguments are the same but for values that stand behind
/// one of `options`.
pub open spec fn differ_behind(
    a: Seq<ArgView>,
    b: Seq<ArgView>,
    options: Seq<Seq<char>>,
) -> bool {
    &&& a.len() == b.len()
    &&& forall|i: int|
        0 <= i < a.len() && #[trigger] a[i] != b[i] ==> i > 0 && a[i - 1] == b[i - 1] && (
        a[i - 1] matches ArgView::Text(option) && options.contains(option))
}

/// What is given in a part of the arguments is given in all of them.
pub(crate) proof fn lemma_given_in(
    front: Seq<ArgView>,
    part: Seq<ArgView>,
    back: Seq<ArgView>,
    option: Seq<char>,
    value: ArgView,
)
    requires
        given(part, option, value),
    ensures
        given(front + part + back, option, value),
{
    let args = front + part + back;
    let i = choose|i: int|
        0 <= i < part.len() - 1 && #[trigger] part[i] == ArgView::Text(option) && part[i + 1]
            == value;
    assert(args[front.len() + i] == part[i]);
    assert(args[front.len() + i + 1] == part[i + 1]);
}

/// A number that is given in a part of the arguments is given in all of them.
pub(crate) proof fn lemma_number_given_in(
    front: Seq<ArgView>,
    part: Seq<ArgView>,
    back: Seq<ArgView>,
    option: Seq<char>,
    before: Seq<char>,
    n: nat,
    after: Seq<char>,
)
    requires
        given_number(part, option, before, n, after),
    ensures
        given_number(front + part + back, option, before, n, after),
{
    let value = choose|value: Seq<char>| #[trigger]
        given(part, option, ArgView::Text(value)) && crate::text::tells(value, before, n, after);
    lemma_given_in(front, part, back, option, ArgView::Text(value));
}

/// Lists that differ behind options alone still do with such lists behind them.
pub(crate) proof fn lemma_differ_joined(
    a: Seq<ArgView>,
    b: Seq<ArgView>,
    more_a: Seq<ArgView>,
    more_b: Seq<ArgView>,
    options: Seq<Seq<char>>,
)
    requires
        differ_behind(a, b, options),
        differ_behind(more_a, more_b, options),
    ensures
        differ_behind(a + more_a, b + more_b, options),
{
    let all_a = a + more_a;
    let all_b = b + more_b;
    assert forall|i: int| 0 <= i < all_a.len() && #[trigger] all_a[i] != all_b[i] implies i > 0
        && all_a[i - 1] == all_b[i - 1] && (all_a[i - 1] matches ArgView::Text(option)
        && options.contains(option)) by {
        if i < a.len() {
            assert(all_a[i] == a[i] && all_b[i] == b[i]);
            assert(all_a[i - 1] == a[i - 1] && all_b[i - 1] == b[i - 1]);
        } else {
            let j = i - a.len();
            assert(all_a[i] == more_a[j] && all_b[i] == more_b[j]);
            assert(all_a[i - 1] == more_a[j - 1] && all_b[i - 1] == more_b[j - 1]);
        }
    }
}

} // verus!
