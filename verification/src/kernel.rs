//! The part of the kernel command line that is handed to the guest's init.
use crate::error::{Error, ErrorKind, ErrorView};
use crate::text::{contains_char, texts};
use vstd::prelude::*;

verus! {

/// An argument as it stands on the kernel command line: the kernel splits on
/// spaces unless the value is quoted.
pub open spec fn quoted(arg: Seq<char>) -> Seq<char> {
    if arg.contains(' ') {
        "\""@ + arg + "\""@
    } else {
        arg
    }
}

/// The arguments as they stand on the kernel command line, with a space in
/// between.
pub open spec fn args_line(command: Seq<Seq<char>>) -> Seq<char>
    decreases command.len(),
{
    if command.len() == 0 {
        Seq::empty()
    } else if command.len() == 1 {
        quoted(command[0])
    } else {
        args_line(command.drop_last()) + " "@ + quoted(command.last())
    }
}

/// The first argument that holds a double quote.
pub open spec fn first_with_quote(command: Seq<Seq<char>>) -> Option<Seq<char>>
    decreases command.len(),
{
    if command.len() == 0 {
        None
    } else if command[0].contains('"') {
        Some(command[0])
    } else {
        first_with_quote(command.drop_first())
    }
}

/// The error for an argument that holds a double quote.
pub open spec fn quote_error(arg: Seq<char>) -> ErrorView {
    ErrorView {
        kind: ErrorKind::InvalidInput,
        message: "double quotes are not supported in command arguments: "@ + arg,
    }
}

/// The arguments line for a command, or why there is none; nothing for an
/// empty command.
pub open spec fn init_args(command: Seq<Seq<char>>) -> Result<Option<Seq<char>>, ErrorView> {
    if command.len() == 0 {
        Ok(None)
    } else {
        match first_with_quote(command) {
            Some(arg) => Err(quote_error(arg)),
            None => Ok(Some(args_line(command))),
        }
    }
}

/// What a formatted arguments line says.
pub open spec fn init_args_view(result: Result<Option<String>, Error>) -> Result<
    Option<Seq<char>>,
    ErrorView,
> {
    match result {
        Ok(Some(line)) => Ok(Some(line@)),
        Ok(None) => Ok(None),
        Err(error) => Err(error@),
    }
}

/// init arguments are by convention passed after `--` in the kernel args line.
///
/// This formats the arguments line. The result does not contain the `--`
/// separator itself.
pub fn format_init_args(command: &Vec<String>) -> (result: Result<Option<String>, Error>)
    ensures
        init_args_view(result) == init_args(texts(command@)),
{
    let ghost wanted = texts(command@);
    if command.is_empty() {
        return Ok(None);
    }
    let mut line = String::new();
    let mut i: usize = 0;
    assert(wanted.take(0) =~= Seq::empty());
    assert(wanted.skip(0) =~= wanted);
    while i < command.len()
        invariant
            i <= command@.len(),
            wanted == texts(command@),
            line@ == args_line(wanted.take(i as int)),
            first_with_quote(wanted) == first_with_quote(wanted.skip(i as int)),
        decreases command@.len() - i,
    {
        let arg = command[i].as_str();
        proof {
            let left = wanted.skip(i as int);
            assert(left[0] == arg@);
            assert(left.drop_first() =~= wanted.skip(i + 1));
            let done = wanted.take(i + 1);
            assert(done.drop_last() =~= wanted.take(i as int));
            assert(done.last() == arg@);
        }
        if contains_char(arg, '"') {
            let mut message = "double quotes are not supported in command arguments: ".to_string();
            message.append(arg);
            return Err(Error::new(ErrorKind::InvalidInput, message));
        }
        if i > 0 {
            line.append(" ");
        }
        if contains_char(arg, ' ') {
            let ghost before = line@;
            line.append("\"");
            line.append(arg);
            line.append("\"");
            assert(line@ =~= before + ("\""@ + arg@ + "\""@));
        } else {
            line.append(arg);
        }
        assert(line@ =~= args_line(wanted.take(i + 1)));
        i += 1;
    }
    assert(wanted.take(i as int) =~= wanted);
    Ok(Some(line))
}

/// What the kernel makes of a line of arguments, with `word` begun: it splits
/// on spaces, but not between double quotes, which it drops.
pub open spec fn split_line(line: Seq<char>, in_quotes: bool, word: Seq<char>) -> Seq<Seq<char>>
    decreases line.len(),
{
    if line.len() == 0 {
        if word.len() > 0 {
            seq![word]
        } else {
            Seq::empty()
        }
    } else {
        let rest = line.drop_first();
        if line[0] == '"' {
            split_line(rest, !in_quotes, word)
        } else if line[0] == ' ' && !in_quotes {
            (if word.len() > 0 {
                seq![word]
            } else {
                Seq::empty()
            }) + split_line(rest, false, Seq::empty())
        } else {
            split_line(rest, in_quotes, word.push(line[0]))
        }
    }
}

/// Text that holds nothing to split at extends the word begun.
proof fn lemma_split_text(text: Seq<char>, rest: Seq<char>, in_quotes: bool, word: Seq<char>)
    requires
        !text.contains('"'),
        in_quotes || !text.contains(' '),
    ensures
        split_line(text + rest, in_quotes, word) == split_line(rest, in_quotes, word + text),
    decreases text.len(),
{
    if text.len() == 0 {
        assert(text + rest =~= rest);
        assert(word + text =~= word);
    } else {
        let c = text[0];
        let tail = text.drop_first();
        assert(text.contains(c));
        assert forall|x: char| tail.contains(x) implies text.contains(x) by {
            let i = choose|i: int| 0 <= i < tail.len() && tail[i] == x;
            assert(text[i + 1] == x);
        }
        assert((text + rest).drop_first() =~= tail + rest);
        lemma_split_text(tail, rest, in_quotes, word.push(c));
        assert(word.push(c) + tail =~= word + text);
    }
}

/// An argument as it stands on the line is taken for one word.
proof fn lemma_split_quoted(arg: Seq<char>, rest: Seq<char>)
    requires
        !arg.contains('"'),
    ensures
        split_line(quoted(arg) + rest, false, Seq::empty()) == split_line(rest, false, arg),
{
    reveal_strlit("\"");
    let nothing = Seq::<char>::empty();
    assert(nothing + arg =~= arg);
    if arg.contains(' ') {
        let line = quoted(arg) + rest;
        let closing = "\""@ + rest;
        assert(line[0] == '"');
        assert(line.drop_first() =~= arg + closing);
        lemma_split_text(arg, closing, true, nothing);
        assert(closing[0] == '"');
        assert(closing.drop_first() =~= rest);
    } else {
        lemma_split_text(arg, rest, false, nothing);
    }
}

/// All arguments but the last are split off the line.
proof fn lemma_split_args(command: Seq<Seq<char>>, rest: Seq<char>)
    requires
        command.len() > 0,
        forall|i: int|
            0 <= i < command.len() ==> (#[trigger] command[i]).len() > 0 && !command[i].contains(
                '"',
            ),
    ensures
        split_line(args_line(command) + rest, false, Seq::empty()) == command.drop_last()
            + split_line(rest, false, command.last()),
    decreases command.len(),
{
    if command.len() == 1 {
        lemma_split_quoted(command[0], rest);
        assert(command.drop_last() =~= Seq::empty());
        assert(Seq::<Seq<char>>::empty() + split_line(rest, false, command.last())
            =~= split_line(rest, false, command.last()));
    } else {
        let front = command.drop_last();
        let last = command.last();
        let tail = quoted(last) + rest;
        let behind = " "@ + tail;
        reveal_strlit(" ");
        assert(args_line(command) + rest =~= args_line(front) + behind);
        lemma_split_args(front, behind);
        assert(behind[0] == ' ');
        assert(behind.drop_first() =~= tail);
        lemma_split_quoted(last, rest);
        assert(front.drop_last() + (seq![front.last()] + split_line(rest, false, last)) =~= front
            + split_line(rest, false, last));
    }
}

/// The kernel hands the guest's init the very arguments of the command, spaces
/// inside an argument included. (An empty argument leaves no trace on the line,
/// so there must be none.)
pub proof fn law_init_gets_the_command(command: Seq<Seq<char>>)
    requires
        forall|i: int| 0 <= i < command.len() ==> (#[trigger] command[i]).len() > 0,
    ensures
        init_args(command) matches Ok(Some(line)) ==> split_line(line, false, Seq::empty())
            == command,
{
    if command.len() > 0 && first_with_quote(command) is None {
        lemma_no_quote(command);
        let line = args_line(command);
        lemma_split_args(command, Seq::empty());
        assert(line + Seq::<char>::empty() =~= line);
        assert(command.drop_last() + seq![command.last()] =~= command);
    }
}

/// A command is refused exactly when one of its arguments holds a double quote.
pub proof fn law_only_quotes_are_refused(command: Seq<Seq<char>>)
    ensures
        init_args(command) is Err <==> exists|i: int|
            0 <= i < command.len() && (#[trigger] command[i]).contains('"'),
{
    match first_with_quote(command) {
        Some(arg) => {
            lemma_first_with_quote(command);
        },
        None => {
            lemma_no_quote(command);
        },
    }
}

/// The first argument with a quote is an argument with a quote.
proof fn lemma_first_with_quote(command: Seq<Seq<char>>)
    requires
        first_with_quote(command) is Some,
    ensures
        exists|i: int| 0 <= i < command.len() && (#[trigger] command[i]).contains('"'),
    decreases command.len(),
{
    if !command[0].contains('"') {
        let rest = command.drop_first();
        lemma_first_with_quote(rest);
        let i = choose|i: int| 0 <= i < rest.len() && (#[trigger] rest[i]).contains('"');
        assert(command[i + 1].contains('"'));
    }
}

/// Where no first argument with a quote is found, no argument has one.
proof fn lemma_no_quote(command: Seq<Seq<char>>)
    requires
        first_with_quote(command) is None,
    ensures
        forall|i: int| 0 <= i < command.len() ==> !(#[trigger] command[i]).contains('"'),
    decreases command.len(),
{
    if command.len() > 0 {
        let rest = command.drop_first();
        lemma_no_quote(rest);
        assert forall|i: int| 0 <= i < command.len() implies !(#[trigger] command[i]).contains(
            '"',
        ) by {
            if i > 0 {
                assert(rest[i - 1] == command[i]);
            }
        }
    }
}

/// How many of the arguments hold a space.
pub open spec fn spaced(command: Seq<Seq<char>>) -> nat {
    command.filter(|arg: Seq<char>| arg.contains(' ')).len()
}

/// How many characters the arguments have.
pub open spec fn characters(command: Seq<Seq<char>>) -> nat
    decreases command.len(),
{
    if command.len() == 0 {
        0
    } else {
        characters(command.drop_last()) + command.last().len()
    }
}

/// Every command gets to the guest's init: only the empty one has no line, only
/// one with a double quote is refused, and the kernel splits the line of any other
/// into the very arguments (none of which is empty, since an empty one leaves no
/// trace).
pub proof fn law_every_command_has_a_line(command: Seq<Seq<char>>)
    ensures
        init_args(command) == Ok::<Option<Seq<char>>, ErrorView>(None) <==> command.len() == 0,
        command.len() > 0 && (forall|i: int|
            0 <= i < command.len() ==> !(#[trigger] command[i]).contains('"')) ==> (init_args(
            command,
        ) matches Ok(Some(line)) && ((forall|i: int|
            0 <= i < command.len() ==> (#[trigger] command[i]).len() > 0) ==> split_line(
            line,
            false,
            Seq::empty(),
        ) == command)),
{
    law_only_quotes_are_refused(command);
    if forall|i: int| 0 <= i < command.len() ==> (#[trigger] command[i]).len() > 0 {
        law_init_gets_the_command(command);
    }
}

/// The line holds no more than it needs: the characters of the arguments, a space
/// between each two, and two quotes for each argument with a space.
pub proof fn law_line_is_no_longer_than_it_needs(command: Seq<Seq<char>>)
    ensures
        init_args(command) matches Ok(Some(line)) ==> line.len() == characters(command)
            + command.len() - 1 + 2 * spaced(command),
{
    if command.len() > 0 && first_with_quote(command) is None {
        lemma_line_length(command);
    }
}

/// The length of a line.
proof fn lemma_line_length(command: Seq<Seq<char>>)
    requires
        command.len() > 0,
    ensures
        args_line(command).len() == characters(command) + command.len() - 1 + 2 * spaced(command),
    decreases command.len(),
{
    let front = command.drop_last();
    let last = command.last();
    reveal(Seq::filter);
    reveal_strlit("\"");
    reveal_strlit(" ");
    assert(quoted(last).len() == last.len() + (if last.contains(' ') {
        2int
    } else {
        0int
    }));
    if command.len() == 1 {
        assert(front =~= Seq::empty());
        assert(front.filter(|arg: Seq<char>| arg.contains(' ')).len() == 0);
        assert(characters(front) == 0);
    } else {
        lemma_line_length(front);
    }
}

/// A line grows at its end: one more argument leaves what stands there, adds a
/// space, and adds the argument, in quotes if it holds a space.
pub proof fn law_line_grows_at_its_end(command: Seq<Seq<char>>, arg: Seq<char>)
    requires
        command.len() > 0,
    ensures
        init_args(command.push(arg)) matches Ok(Some(longer)) ==> (init_args(command) matches Ok(
            Some(line),
        ) && longer == line + (if arg.contains(' ') {
            seq![' ', '"'] + arg + seq!['"']
        } else {
            seq![' '] + arg
        })),
        init_args(seq![arg]) matches Ok(Some(line)) ==> line == (if arg.contains(' ') {
            seq!['"'] + arg + seq!['"']
        } else {
            arg
        }),
{
    reveal_strlit("\"");
    reveal_strlit(" ");
    let longer = command.push(arg);
    assert(longer.drop_last() =~= command);
    assert("\""@ =~= seq!['"']);
    assert(" "@ =~= seq![' ']);
    law_only_quotes_are_refused(longer);
    law_only_quotes_are_refused(command);
    if init_args(longer) is Ok {
        assert forall|i: int| 0 <= i < command.len() implies !(#[trigger] command[i]).contains(
            '"',
        ) by {
            assert(longer[i] == command[i]);
        }
        assert(init_args(command) is Ok);
        assert(args_line(longer) =~= args_line(command) + (if arg.contains(' ') {
            seq![' ', '"'] + arg + seq!['"']
        } else {
            seq![' '] + arg
        }));
    }
}

/// A refusal is about the first argument that holds a double quote, and names it.
pub proof fn law_refusal_names_the_argument(command: Seq<Seq<char>>)
    ensures
        init_args(command) matches Err(error) ==> {
            &&& error.kind is InvalidInput
            &&& exists|i: int|
                0 <= i < command.len() && (#[trigger] command[i]).contains('"') && error.message
                    == "double quotes are not supported in command arguments: "@ + command[i] && (
                forall|j: int| 0 <= j < i ==> !(#[trigger] command[j]).contains('"'))
        },
    decreases command.len(),
{
    if init_args(command) is Err && !command[0].contains('"') {
        let rest = command.drop_first();
        assert(rest.len() > 0);
        law_refusal_names_the_argument(rest);
        let error = init_args(rest)->Err_0;
        assert(init_args(command) == init_args(rest));
        let i = choose|i: int|
            0 <= i < rest.len() && (#[trigger] rest[i]).contains('"') && error.message
                == "double quotes are not supported in command arguments: "@ + rest[i] && (
            forall|j: int| 0 <= j < i ==> !(#[trigger] rest[j]).contains('"'));
        assert(command[i + 1] == rest[i]);
        assert forall|j: int| 0 <= j < i + 1 implies !(#[trigger] command[j]).contains('"') by {
            if j > 0 {
                assert(rest[j - 1] == command[j]);
            }
        }
    }
}

} // verus!
