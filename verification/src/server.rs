//! The server end of the channel: it hosts a command behind a PTY in the guest
//! and forwards it over frames.
use crate::error::{Error, ErrorKind, ErrorView};
use crate::escape::{held, quits};
use crate::frame::{chunked, frames_view, payloads, Frame, FrameType, FrameView};
use crate::reader::{Progress, ProgressView};
use crate::terminal::{all_read, sent_frames};
use vstd::prelude::*;
use vstd::utf8::encode_utf8;

verus! {

/// The bytes of each entry in a list.
pub open spec fn entries_view(entries: Seq<Vec<u8>>) -> Seq<Seq<u8>> {
    entries.map_values(|entry: Vec<u8>| entry@)
}

/// The keys and values of a list of variables.
pub open spec fn vars_view(vars: Seq<(Vec<u8>, Vec<u8>)>) -> Seq<(Seq<u8>, Seq<u8>)> {
    vars.map_values(|var: (Vec<u8>, Vec<u8>)| (var.0@, var.1@))
}

/// An environment variable as an entry of the environment.
pub open spec fn env_entry(key: Seq<u8>, value: Seq<u8>) -> Seq<u8> {
    key.push(0x3d) + value
}

/// Whether a variable is handed on: `TERM` is not, nor one with a NUL in it.
pub open spec fn handed_on(key: Seq<u8>, value: Seq<u8>) -> bool {
    key != encode_utf8("TERM"@) && !env_entry(key, value).contains(0u8)
}

/// The entries of the variables that are handed on, in their order.
pub open spec fn handed_on_entries(vars: Seq<(Seq<u8>, Seq<u8>)>) -> Seq<Seq<u8>>
    decreases vars.len(),
{
    if vars.len() == 0 {
        Seq::empty()
    } else {
        let before = handed_on_entries(vars.drop_last());
        let (key, value) = vars.last();
        if handed_on(key, value) {
            before.push(env_entry(key, value))
        } else {
            before
        }
    }
}

/// The environment of the command: the variables that are handed on, then
/// `TERM`.
pub open spec fn command_env(vars: Seq<(Seq<u8>, Seq<u8>)>) -> Seq<Seq<u8>> {
    handed_on_entries(vars).push(encode_utf8("TERM=xterm-256color"@))
}

/// Whether two byte strings are the same.
pub(crate) fn same_bytes(a: &[u8], b: &[u8]) -> (same: bool)
    ensures
        same == (a@ == b@),
{
    if a.len() != b.len() {
        return false;
    }
    let mut i: usize = 0;
    while i < a.len()
        invariant
            i <= a@.len(),
            a@.len() == b@.len(),
            forall|j: int| 0 <= j < i ==> a@[j] == b@[j],
        decreases a@.len() - i,
    {
        if a[i] != b[i] {
            return false;
        }
        i += 1;
    }
    assert(a@ =~= b@);
    true
}

/// Whether there is a NUL among `bytes`.
fn has_nul(bytes: &Vec<u8>) -> (found: bool)
    ensures
        found == bytes@.contains(0u8),
{
    let mut i: usize = 0;
    while i < bytes.len()
        invariant
            i <= bytes@.len(),
            forall|j: int| 0 <= j < i ==> bytes@[j] != 0,
        decreases bytes@.len() - i,
    {
        if bytes[i] == 0 {
            return true;
        }
        i += 1;
    }
    false
}

/// The environment `vars` with `TERM` forced to `xterm-256color`, one
/// `key=value` entry for each variable.
pub fn build_env(vars: &Vec<(Vec<u8>, Vec<u8>)>) -> (env: Vec<Vec<u8>>)
    ensures
        entries_view(env@) == command_env(vars_view(vars@)),
{
    let ghost all = vars_view(vars@);
    let mut env: Vec<Vec<u8>> = Vec::new();
    let mut i: usize = 0;
    assert(entries_view(env@) =~= handed_on_entries(all.take(0)));
    while i < vars.len()
        invariant
            i <= vars@.len(),
            all == vars_view(vars@),
            entries_view(env@) == handed_on_entries(all.take(i as int)),
        decreases vars@.len() - i,
    {
        let key = &vars[i].0;
        let value = &vars[i].1;
        let ghost before = env@;
        assert(all.take(i + 1).drop_last() =~= all.take(i as int));
        assert(all.take(i + 1).last() == (key@, value@));
        if !same_bytes(key.as_slice(), "TERM".as_bytes()) {
            let mut entry = key.clone();
            entry.push(0x3d);
            entry.extend_from_slice(value.as_slice());
            assert(entry@ =~= env_entry(key@, value@));
            if !has_nul(&entry) {
                env.push(entry);
                assert(entries_view(env@) =~= entries_view(before).push(entry@));
            }
        }
        i += 1;
    }
    assert(all.take(i as int) =~= all);
    let ghost before = env@;
    let last = vstd::slice::slice_to_vec("TERM=xterm-256color".as_bytes());
    env.push(last);
    assert(entries_view(env@) =~= entries_view(before).push(last@));
    env
}

/// What to do on behalf of the client.
#[derive(Debug, PartialEq, Eq)]
pub enum ClientRequest<E> {
    /// Nothing yet; read on.
    More,
    /// Type `bytes` at the PTY.
    Write { bytes: Vec<u8> },
    /// The client's stdin has ended: end the input at the PTY.
    EndInput,
    /// Give the PTY a new size.
    Resize { cols: u16, rows: u16 },
    /// The client has gone.
    Done,
    /// The client sent something that makes no sense here.
    Invalid(Error),
    /// The channel failed.
    Failed(E),
}

/// What a [`ClientRequest`] says.
pub enum RequestView<E> {
    More,
    Write { bytes: Seq<u8> },
    EndInput,
    Resize { cols: u16, rows: u16 },
    Done,
    Invalid(ErrorView),
    Failed(E),
}

impl<E> View for ClientRequest<E> {
    type V = RequestView<E>;

    open spec fn view(&self) -> RequestView<E> {
        match *self {
            ClientRequest::More => RequestView::More,
            ClientRequest::Write { bytes } => RequestView::Write { bytes: bytes@ },
            ClientRequest::EndInput => RequestView::EndInput,
            ClientRequest::Resize { cols, rows } => RequestView::Resize { cols, rows },
            ClientRequest::Done => RequestView::Done,
            ClientRequest::Invalid(error) => RequestView::Invalid(error@),
            ClientRequest::Failed(error) => RequestView::Failed(error),
        }
    }
}

/// The error for a frame that a client does not send in a session.
pub open spec fn unexpected_type(frame_type: FrameType) -> ErrorView {
    ErrorView {
        kind: ErrorKind::InvalidData,
        message: "Unexpected frame type: "@ + frame_type.name_text(),
    }
}

/// What a frame from the client asks for: stdin bytes are typed at the PTY, a
/// resize changes its size, anything else is an error. Where the client tells of
/// the end of its stdin (`hears_eof`), a stdin frame without any bytes ends the
/// input at the PTY; elsewhere it types nothing.
pub open spec fn asked_for<E>(frame: FrameView, hears_eof: bool) -> RequestView<E> {
    if frame.frame_type is Stdin {
        if hears_eof && frame.payload.len() == 0 {
            RequestView::EndInput
        } else {
            RequestView::Write { bytes: frame.payload }
        }
    } else {
        match frame.size() {
            Some((cols, rows)) => RequestView::Resize { cols, rows },
            None => RequestView::Invalid(unexpected_type(frame.frame_type)),
        }
    }
}

/// What a step of reading the channel asks for.
pub open spec fn request_of<E>(progress: ProgressView<E>, hears_eof: bool) -> RequestView<E> {
    match progress {
        ProgressView::More => RequestView::More,
        ProgressView::Frame(frame) => asked_for(frame, hears_eof),
        ProgressView::End => RequestView::Done,
        ProgressView::Invalid(error) => RequestView::Invalid(error),
        ProgressView::Failed(error) => RequestView::Failed(error),
    }
}

/// One step of decoding frames from the channel and applying them to the PTY.
/// With `hears_eof` an empty stdin frame is the end of the client's stdin.
pub fn pump_client_frames<E>(progress: Progress<E>, hears_eof: bool) -> (request: ClientRequest<E>)
    ensures
        request@ == request_of(progress@, hears_eof),
{
    match progress {
        Progress::More => ClientRequest::More,
        Progress::End => ClientRequest::Done,
        Progress::Invalid(error) => ClientRequest::Invalid(error),
        Progress::Failed(error) => ClientRequest::Failed(error),
        Progress::Frame(frame) => {
            if frame.frame_type == FrameType::Stdin {
                if hears_eof && frame.payload.len() == 0 {
                    ClientRequest::EndInput
                } else {
                    ClientRequest::Write { bytes: frame.payload }
                }
            } else {
                match frame.as_resize() {
                    Some((cols, rows)) => ClientRequest::Resize { cols, rows },
                    None => {
                        let mut message = "Unexpected frame type: ".to_string();
                        message.append(frame.frame_type.name());
                        ClientRequest::Invalid(Error::new(ErrorKind::InvalidData, message))
                    },
                }
            }
        },
    }
}

/// The keys that end the input of a command at a terminal whose end-of-file key
/// is `key`, where `last` is what was typed last. The key hands over what was
/// typed so far, and ends the input where that is nothing: in the middle of a
/// line it takes a second one.
pub open spec fn end_keys(key: u8, last: Option<u8>) -> Seq<u8> {
    if last is None || last == Some(0x0au8) {
        seq![key]
    } else {
        seq![key, key]
    }
}

/// The keys that end the input of a command at a terminal.
pub fn eof_keys(key: u8, last: Option<u8>) -> (keys: Vec<u8>)
    ensures
        keys@ == end_keys(key, last),
{
    match last {
        None => vec![key],
        Some(byte) => if byte == 0x0a {
            vec![key]
        } else {
            vec![key, key]
        },
    }
}

/// What the client wants typed at the PTY.
pub enum Input {
    /// Some bytes.
    Bytes(Vec<u8>),
    /// The end of the input, at a terminal with this end-of-file key.
    End { key: u8 },
}

/// What an [`Input`] says.
pub enum InputView {
    Bytes(Seq<u8>),
    End { key: u8 },
}

impl View for Input {
    type V = InputView;

    open spec fn view(&self) -> InputView {
        match *self {
            Input::Bytes(bytes) => InputView::Bytes(bytes@),
            Input::End { key } => InputView::End { key },
        }
    }
}

/// What was typed last, once `bytes` are typed behind `last`.
pub open spec fn last_typed(last: Option<u8>, bytes: Seq<u8>) -> Option<u8> {
    if bytes.len() > 0 {
        Some(bytes.last())
    } else {
        last
    }
}

/// What is written to the PTY for an input behind `last`, and what was typed last
/// then. Behind the end of the input it starts anew.
pub open spec fn typed(input: InputView, last: Option<u8>) -> (Seq<u8>, Option<u8>) {
    match input {
        InputView::Bytes(bytes) => (bytes, last_typed(last, bytes)),
        InputView::End { key } => (end_keys(key, last), None),
    }
}

/// One step of typing at the PTY: returns what to write to it. `last` carries
/// what was typed last from step to step.
pub fn type_input(input: Input, last: &mut Option<u8>) -> (keys: Vec<u8>)
    ensures
        (keys@, *final(last)) == typed(input@, *old(last)),
{
    match input {
        Input::Bytes(bytes) => {
            if bytes.len() > 0 {
                *last = Some(bytes[bytes.len() - 1]);
            }
            bytes
        },
        Input::End { key } => {
            let keys = eof_keys(key, *last);
            *last = None;
            keys
        },
    }
}

/// What one read of the command's output came to; `E` is its error.
pub enum OutputRead<E> {
    /// Some bytes.
    Data(Vec<u8>),
    /// The output has ended.
    Eof,
    /// The read failed; `hung_up` if only because the other side of the PTY
    /// has been closed.
    Failed { error: E, hung_up: bool },
}

/// What to do with the command's output.
#[derive(Debug, PartialEq, Eq)]
pub enum OutputStep<E> {
    /// Send it to the client.
    Send(Vec<Frame>),
    /// The output has ended.
    Done,
    /// The output failed.
    Failed(E),
}

/// One step of reading the command's output and chunking it into frames of the
/// given type. When the command closes its side of a PTY, reading does not come
/// to an end but fails: that is the end of the output too.
pub fn pump_output<E>(frame_type: FrameType, read: OutputRead<E>) -> (step: OutputStep<E>)
    ensures
        match read {
            OutputRead::Data(bytes) => step matches OutputStep::Send(frames) && frames_view(frames@)
                == chunked(frame_type, bytes@),
            OutputRead::Eof => step is Done,
            OutputRead::Failed { error, hung_up } => step == (if hung_up {
                OutputStep::<E>::Done
            } else {
                OutputStep::<E>::Failed(error)
            }),
        },
{
    match read {
        OutputRead::Data(bytes) => OutputStep::Send(Frame::chunks(frame_type, bytes)),
        OutputRead::Eof => OutputStep::Done,
        OutputRead::Failed { error, hung_up } => if hung_up {
            OutputStep::Done
        } else {
            OutputStep::Failed(error)
        },
    }
}

/// Whether `entry` is one for the variable `key`.
pub open spec fn sets(entry: Seq<u8>, key: Seq<u8>) -> bool {
    key.push(0x3d).is_prefix_of(entry)
}

/// Every entry can be handed to the operating system: none holds a NUL.
pub proof fn law_env_holds_no_nul(vars: Seq<(Seq<u8>, Seq<u8>)>, i: int)
    requires
        0 <= i < command_env(vars).len(),
    ensures
        !command_env(vars)[i].contains(0u8),
{
    if i < handed_on_entries(vars).len() {
        lemma_entry_origin(vars, i);
    } else {
        reveal_strlit("TERM=xterm-256color");
        vstd::utf8::is_ascii_chars_encode_utf8("TERM=xterm-256color"@);
    }
}

/// An entry stems from a variable that is handed on.
pub(crate) proof fn lemma_entry_origin(vars: Seq<(Seq<u8>, Seq<u8>)>, i: int)
    requires
        0 <= i < handed_on_entries(vars).len(),
    ensures
        exists|k: int|
            #![trigger vars[k]]
            0 <= k < vars.len() && handed_on(vars[k].0, vars[k].1) && handed_on_entries(vars)[i]
                == env_entry(vars[k].0, vars[k].1),
    decreases vars.len(),
{
    let front = vars.drop_last();
    if i < handed_on_entries(front).len() {
        lemma_entry_origin(front, i);
        let k = choose|k: int|
            #![trigger front[k]]
            0 <= k < front.len() && handed_on(front[k].0, front[k].1) && handed_on_entries(
                front,
            )[i] == env_entry(front[k].0, front[k].1);
        assert(vars[k] == front[k]);
    } else {
        assert(vars[vars.len() - 1] == vars.last());
    }
}

/// An entry sets the variable that it was made of and no other.
pub(crate) proof fn lemma_sets_its_key(key: Seq<u8>, value: Seq<u8>, name: Seq<u8>)
    requires
        !key.contains(0x3du8),
        !name.contains(0x3du8),
    ensures
        sets(env_entry(key, value), name) <==> key == name,
{
    let entry = env_entry(key, value);
    if key == name {
        assert(entry.subrange(0, name.push(0x3d).len() as int) =~= name.push(0x3d));
    }
    if sets(entry, name) {
        let start = entry.subrange(0, name.push(0x3d).len() as int);
        assert(start == name.push(0x3d));
        assert forall|j: int| 0 <= j < name.len() implies entry[j] == name[j] by {
            assert(entry[j] == start[j]);
        }
        assert(entry[name.len() as int] == start[name.len() as int]);
        if key.len() < name.len() {
            assert(name[key.len() as int] == 0x3d);
        } else if key.len() > name.len() {
            assert(key[name.len() as int] == 0x3d);
        } else {
            assert(key =~= name);
        }
    }
}

/// `TERM` is forced: the last entry sets it, and no other does (no variable has
/// a `=` in its name).
pub proof fn law_term_is_forced(vars: Seq<(Seq<u8>, Seq<u8>)>, i: int)
    requires
        forall|k: int| 0 <= k < vars.len() ==> !(#[trigger] vars[k]).0.contains(0x3du8),
        0 <= i < command_env(vars).len(),
    ensures
        command_env(vars).last() == encode_utf8("TERM=xterm-256color"@),
        sets(command_env(vars)[i], encode_utf8("TERM"@)) <==> i == command_env(vars).len() - 1,
{
    let name = encode_utf8("TERM"@);
    let last = encode_utf8("TERM=xterm-256color"@);
    reveal_strlit("TERM");
    reveal_strlit("TERM=xterm-256color");
    vstd::utf8::is_ascii_chars_encode_utf8("TERM"@);
    vstd::utf8::is_ascii_chars_encode_utf8("TERM=xterm-256color"@);
    assert(name =~= seq![0x54u8, 0x45u8, 0x52u8, 0x4du8]);
    assert(last.subrange(0, 5) =~= name.push(0x3d));
    if i < handed_on_entries(vars).len() {
        lemma_entry_origin(vars, i);
        let k = choose|k: int|
            #![trigger vars[k]]
            0 <= k < vars.len() && handed_on(vars[k].0, vars[k].1) && handed_on_entries(vars)[i]
                == env_entry(vars[k].0, vars[k].1);
        lemma_sets_its_key(vars[k].0, vars[k].1, name);
    }
}

/// Keystrokes reach the command unchanged, whatever they are; only where the
/// client tells of the end of its stdin do none at all mean something else.
pub proof fn law_stdin_is_written_as_it_is<E>(
    payload: Seq<u8>,
    hears_eof: bool,
    last: Option<u8>,
)
    requires
        payload.len() > 0 || !hears_eof,
    ensures
        asked_for::<E>(FrameView { frame_type: FrameType::Stdin, payload }, hears_eof) == (
        RequestView::<E>::Write { bytes: payload }),
        typed(InputView::Bytes(payload), last).0 == payload,
{
}

/// What a run of frames from a client that tells of the end of its stdin writes to
/// a PTY whose end-of-file key is `key`, behind `last`. A frame that makes no sense ends it.
pub open spec fn written(key: u8, last: Option<u8>, frames: Seq<FrameView>) -> Seq<u8>
    decreases frames.len(),
{
    if frames.len() == 0 {
        Seq::empty()
    } else {
        let rest = frames.drop_first();
        match asked_for::<()>(frames[0], true) {
            RequestView::Write { bytes } => {
                let (keys, next) = typed(InputView::Bytes(bytes), last);
                keys + written(key, next, rest)
            },
            RequestView::EndInput => {
                let (keys, next) = typed(InputView::End { key }, last);
                keys + written(key, next, rest)
            },
            RequestView::Resize { .. } => written(key, last, rest),
            _ => Seq::empty(),
        }
    }
}

/// Whether a frame is one that types something or changes the size.
pub open spec fn types_or_resizes(frame: FrameView) -> bool {
    frame.frame_type is Stdin && frame.payload.len() > 0 || frame.size() is Some
}

/// The end of the client's stdin ends the command's input: over a run of stdin
/// frames that ends in the empty one, with resize events among them, the PTY is
/// written their payloads and then the keys that end the input behind the last
/// byte.
pub proof fn law_end_of_stdin_is_typed(key: u8, last: Option<u8>, frames: Seq<FrameView>)
    requires
        forall|i: int| 0 <= i < frames.len() ==> types_or_resizes(#[trigger] frames[i]),
    ensures
        ({
            let eof = FrameView { frame_type: FrameType::Stdin, payload: Seq::empty() };
            let bytes = payloads(frames, FrameType::Stdin);
            written(key, last, frames.push(eof)) == bytes + end_keys(key, last_typed(last, bytes))
        }),
    decreases frames.len(),
{
    let eof = FrameView { frame_type: FrameType::Stdin, payload: Seq::empty() };
    let run = frames.push(eof);
    let bytes = payloads(frames, FrameType::Stdin);
    if frames.len() == 0 {
        assert(run.drop_first() =~= Seq::empty());
        assert(run[0] == eof);
        assert(written(key, None, run.drop_first()) =~= Seq::empty());
        assert(written(key, last, run) =~= bytes + end_keys(key, last));
    } else {
        let rest = frames.drop_first();
        assert(run[0] == frames[0]);
        assert(types_or_resizes(frames[0]));
        assert(run.drop_first() =~= rest.push(eof));
        assert forall|i: int| 0 <= i < rest.len() implies types_or_resizes(#[trigger] rest[i]) by {
            assert(rest[i] == frames[i + 1]);
        }
        let later = payloads(rest, FrameType::Stdin);
        if frames[0].frame_type is Stdin {
            let first = frames[0].payload;
            let next = last_typed(last, first);
            law_end_of_stdin_is_typed(key, next, rest);
            assert(bytes == first + later);
            assert(last_typed(next, later) == last_typed(last, bytes));
            assert(written(key, last, run) =~= bytes + end_keys(key, last_typed(last, bytes)));
        } else {
            law_end_of_stdin_is_typed(key, last, rest);
            assert(bytes =~= later);
        }
    }
}

/// What is typed at the client's terminal is typed at the command's: all of it,
/// however it was cut into reads, and then the keys that end the input.
pub proof fn law_typing_reaches_the_command(key: u8, reads: Seq<Seq<u8>>)
    requires
        !quits(all_read(reads)),
    ensures
        written(key, None, sent_frames(false, reads, true)) == all_read(reads) + end_keys(
            key,
            last_typed(None, all_read(reads)),
        ),
{
    let frames = sent_frames(false, reads, true);
    let front = frames.drop_last();
    let eof = FrameView { frame_type: FrameType::Stdin, payload: Seq::empty() };
    assert(held(false) + all_read(reads) =~= all_read(reads));
    crate::terminal::law_shell_gets_what_was_typed(false, reads, true);
    assert(frames.last().payload =~= Seq::empty());
    assert(frames =~= front.push(eof));
    assert forall|i: int| 0 <= i < front.len() implies types_or_resizes(#[trigger] front[i]) by {
        assert(front[i] == frames[i]);
    }
    law_end_of_stdin_is_typed(key, None, front);
    assert(frames =~= front + seq![eof]);
    crate::frame::lemma_payloads_joined(front, seq![eof], FrameType::Stdin);
    assert(payloads(seq![eof].drop_first(), FrameType::Stdin) =~= Seq::empty());
    assert(payloads(seq![eof], FrameType::Stdin) =~= Seq::empty());
    assert(payloads(front, FrameType::Stdin) =~= all_read(reads));
}

/// A resize event that the client sends is the size that the PTY gets.
pub proof fn law_resize_reaches_the_pty<E>(cols: u16, rows: u16, hears_eof: bool)
    ensures
        asked_for::<E>(FrameView::of_size(cols, rows), hears_eof) == (RequestView::<E>::Resize {
            cols,
            rows,
        }),
{
    crate::frame::law_resize_round_trip(cols, rows);
}

/// An environment is built variable by variable: that of two lists is that of the
/// first and then that of the second, with `TERM` set once at the end. A variable
/// becomes `key=value`, byte for byte, unless it is `TERM` or holds a NUL.
pub proof fn law_env_is_built_variable_by_variable(
    front: Seq<(Seq<u8>, Seq<u8>)>,
    back: Seq<(Seq<u8>, Seq<u8>)>,
    key: Seq<u8>,
    value: Seq<u8>,
)
    ensures
        command_env(front + back) == command_env(front).drop_last() + command_env(back),
        command_env(Seq::empty()) == seq![encode_utf8("TERM=xterm-256color"@)],
        key != encode_utf8("TERM"@) && !key.contains(0u8) && !value.contains(0u8) ==> command_env(
            seq![(key, value)],
        ) == seq![key + seq![0x3du8] + value, encode_utf8("TERM=xterm-256color"@)],
        key == encode_utf8("TERM"@) || key.contains(0u8) || value.contains(0u8) ==> command_env(
            seq![(key, value)],
        ) == seq![encode_utf8("TERM=xterm-256color"@)],
{
    let term = encode_utf8("TERM=xterm-256color"@);
    lemma_entries_joined(front, back);
    assert(handed_on_entries(front).push(term).drop_last() =~= handed_on_entries(front));
    assert(command_env(front + back) =~= handed_on_entries(front) + command_env(back));
    assert(command_env(Seq::empty()) =~= seq![term]);
    let one = seq![(key, value)];
    assert(one.drop_last() =~= Seq::empty());
    assert(handed_on_entries(one.drop_last()) =~= Seq::empty());
    let entry = key + seq![0x3du8] + value;
    assert(env_entry(key, value) =~= entry);
    assert(entry.contains(0u8) <==> key.contains(0u8) || value.contains(0u8)) by {
        if key.contains(0u8) {
            let i = choose|i: int| 0 <= i < key.len() && key[i] == 0;
            assert(entry[i] == 0);
        }
        if value.contains(0u8) {
            let i = choose|i: int| 0 <= i < value.len() && value[i] == 0;
            assert(entry[key.len() + 1 + i] == 0);
        }
        if entry.contains(0u8) {
            let i = choose|i: int| 0 <= i < entry.len() && entry[i] == 0;
            if i < key.len() {
                assert(key[i] == 0);
            } else {
                assert(i != key.len());
                assert(value[i - key.len() - 1] == 0);
            }
        }
    }
    if handed_on(key, value) {
        assert(command_env(one) =~= seq![entry, term]);
    } else {
        assert(command_env(one) =~= seq![term]);
    }
}

/// The entries of two lists are those of both, one behind the other.
proof fn lemma_entries_joined(front: Seq<(Seq<u8>, Seq<u8>)>, back: Seq<(Seq<u8>, Seq<u8>)>)
    ensures
        handed_on_entries(front + back) == handed_on_entries(front) + handed_on_entries(back),
    decreases back.len(),
{
    if back.len() == 0 {
        assert(front + back =~= front);
        assert(handed_on_entries(front) + handed_on_entries(back) =~= handed_on_entries(front));
    } else {
        assert((front + back).drop_last() =~= front + back.drop_last());
        lemma_entries_joined(front, back.drop_last());
        assert(handed_on_entries(front + back) =~= handed_on_entries(front) + handed_on_entries(
            back,
        ));
    }
}

/// A client that tells of the end of its stdin does so with an empty stdin frame;
/// a frame that is neither stdin nor a well-formed resize event is refused, and the
/// refusal names its type.
pub proof fn law_other_frames_are_refused<E>(frame: FrameView, hears_eof: bool)
    ensures
        frame.frame_type is Stdin && frame.payload.len() == 0 && hears_eof ==> asked_for::<E>(
            frame,
            hears_eof,
        ) is EndInput,
        !(frame.frame_type is Stdin) && !(frame.frame_type is Resize && frame.payload.len() == 4)
            ==> (asked_for::<E>(frame, hears_eof) matches RequestView::Invalid(error)
            && error.kind is InvalidData && error.message == "Unexpected frame type: "@
            + frame.frame_type.name_text()),
{
}

/// What reading the channel came to is handed on: an incomplete frame asks for
/// nothing, the end of the channel ends the work, an error is handed on as it is,
/// and a frame asks for the same however it was read.
pub proof fn law_requests_are_handed_on<E>(
    error: ErrorView,
    failure: E,
    frame: FrameView,
    hears_eof: bool,
)
    ensures
        request_of(ProgressView::<E>::More, hears_eof) is More,
        request_of(ProgressView::<E>::End, hears_eof) is Done,
        request_of(ProgressView::<E>::Invalid(error), hears_eof) == RequestView::<E>::Invalid(
            error,
        ),
        request_of(ProgressView::Failed(failure), hears_eof) == RequestView::Failed(failure),
        frame.frame_type is Stdin && frame.payload.len() > 0 ==> request_of(
            ProgressView::<E>::Frame(frame),
            hears_eof,
        ) == (RequestView::<E>::Write { bytes: frame.payload }),
        frame.size() matches Some((cols, rows)) ==> request_of(
            ProgressView::<E>::Frame(frame),
            hears_eof,
        ) == (RequestView::<E>::Resize { cols, rows }),
        !(frame.frame_type is Stdin) && frame.size() is None ==> request_of(
            ProgressView::<E>::Frame(frame),
            hears_eof,
        ) is Invalid,
        frame.frame_type is Stdin && frame.payload.len() == 0 ==> request_of(
            ProgressView::<E>::Frame(frame),
            hears_eof,
        ) == (if hears_eof {
            RequestView::<E>::EndInput
        } else {
            RequestView::<E>::Write { bytes: Seq::empty() }
        }),
{
    if frame.payload.len() == 0 {
        assert(frame.payload =~= Seq::empty());
    }
}

/// Where a line has just begun the end-of-file key is typed once, in the middle of
/// one twice, and nothing else is typed.
pub proof fn law_end_of_input_keys(key: u8, last: Option<u8>)
    ensures
        end_keys(key, None) == seq![key],
        end_keys(key, Some(0x0a)) == seq![key],
        last matches Some(byte) ==> byte != 0x0a ==> end_keys(key, last) == seq![key, key],
{
}

/// What was typed is remembered from step to step: behind bytes it is the last of
/// them, no bytes change nothing, and behind the end of the input it starts anew.
/// Bytes are typed as they are.
pub proof fn law_typing_remembers_the_last_byte(
    key: u8,
    bytes: Seq<u8>,
    byte: u8,
    last: Option<u8>,
)
    ensures
        typed(InputView::Bytes(bytes.push(byte)), last) == (bytes.push(byte), Some(byte)),
        typed(InputView::Bytes(Seq::empty()), last) == (Seq::<u8>::empty(), last),
        typed(InputView::End { key }, last).1 is None,
        typed(InputView::End { key }, None).0 == seq![key],
        typed(InputView::End { key }, Some(0x0a)).0 == seq![key],
        byte != 0x0a ==> typed(InputView::End { key }, Some(byte)).0 == seq![key, key],
{
}

/// What is typed at the client's terminal ends the command's input behind itself:
/// one end-of-file key behind a whole line, or behind nothing at all, two in the
/// middle of a line.
pub proof fn law_input_is_ended_behind_what_was_typed(key: u8, reads: Seq<Seq<u8>>)
    requires
        !quits(all_read(reads)),
    ensures
        ({
            let all = all_read(reads);
            written(key, None, sent_frames(false, reads, true)) == all + (if all.len() == 0
                || all.last() == 0x0a {
                seq![key]
            } else {
                seq![key, key]
            })
        }),
{
    law_typing_reaches_the_command(key, reads);
}

} // verus!
