//! The client end of the channel: the local terminal bridged to the server.
use crate::error::{Error, ErrorView};
use crate::escape::{filter_escape, forwarded, held, holds, quits, ESCAPE};
use crate::frame::{chunked, frames_view, payloads, Frame, FrameType, FrameView};
use crate::reader::{Progress, ProgressView};
use crate::status::propagate_status;
use crate::text::to_decimal;
use vstd::prelude::*;

verus! {

/// What the first frame from a server comes to; `E` is the channel's error.
#[derive(Debug, PartialEq, Eq)]
pub enum Greeting<E> {
    /// The server is there.
    Accepted,
    /// The channel failed.
    Failed(E),
    /// The server breaks the protocol, in the way described.
    Refused(String),
}

/// Judge the first frame from a server, `None` at the end of the channel: it
/// has to be a start frame.
pub fn check_greeting<E>(first: Option<Result<Frame, E>>) -> (greeting: Greeting<E>)
    ensures
        match first {
            None => greeting matches Greeting::Refused(message) && message@ == "Unexpected EOF"@,
            Some(Err(error)) => greeting == Greeting::<E>::Failed(error),
            Some(Ok(frame)) => if frame.frame_type is Start {
                greeting is Accepted
            } else {
                greeting matches Greeting::Refused(message) && message@
                    == "Expected start frame. Got: "@ + frame.frame_type.name_text()
            },
        },
{
    match first {
        None => Greeting::Refused("Unexpected EOF".to_string()),
        Some(Err(error)) => Greeting::Failed(error),
        Some(Ok(frame)) => if frame.frame_type == FrameType::Start {
            Greeting::Accepted
        } else {
            let mut message = "Expected start frame. Got: ".to_string();
            message.append(frame.frame_type.name());
            Greeting::Refused(message)
        },
    }
}

/// The size to open a session with. Without a controlling terminal the size
/// can not be queried: a conventional 80x24 stands in.
pub fn opening_size(queried: Option<(u16, u16)>) -> (size: (u16, u16))
    ensures
        size == (match queried {
            Some(size) => size,
            None => (80u16, 24u16),
        }),
{
    match queried {
        Some(size) => size,
        None => (80, 24),
    }
}

/// What to do with what came over the channel.
#[derive(Debug, PartialEq, Eq)]
pub enum Output<E> {
    /// Nothing yet; read on.
    More,
    /// Show it on the local stdout.
    Stdout(Vec<u8>),
    /// Show it on the local stderr.
    Stderr(Vec<u8>),
    /// The command has ended with this code.
    Exit(i32),
    /// The session is over without a code; there may be something to complain
    /// about.
    Stop(Option<String>),
    /// The session is over without a code: no valid frame came.
    Invalid(Error),
    /// The session is over without a code: the channel failed.
    Failed(E),
}

/// What an [`Output`] says.
pub enum OutputView<E> {
    More,
    Stdout(Seq<u8>),
    Stderr(Seq<u8>),
    Exit(i32),
    Stop(Option<Seq<char>>),
    Invalid(ErrorView),
    Failed(E),
}

impl<E> View for Output<E> {
    type V = OutputView<E>;

    open spec fn view(&self) -> OutputView<E> {
        match *self {
            Output::More => OutputView::More,
            Output::Stdout(bytes) => OutputView::Stdout(bytes@),
            Output::Stderr(bytes) => OutputView::Stderr(bytes@),
            Output::Exit(code) => OutputView::Exit(code),
            Output::Stop(Some(complaint)) => OutputView::Stop(Some(complaint@)),
            Output::Stop(None) => OutputView::Stop(None),
            Output::Invalid(error) => OutputView::Invalid(error@),
            Output::Failed(error) => OutputView::Failed(error),
        }
    }
}

/// What to do with a frame from the server; `exits` tells whether the server
/// reports exit codes.
pub open spec fn shown<E>(frame: FrameView, exits: bool) -> OutputView<E> {
    if frame.frame_type is Stdout {
        OutputView::Stdout(frame.payload)
    } else if frame.frame_type is Stderr {
        OutputView::Stderr(frame.payload)
    } else if frame.frame_type is Exit && exits {
        match frame.exit_code() {
            Some(code) => OutputView::Exit(code),
            None => OutputView::Stop(
                Some(
                    "Malformed exit frame: "@ + crate::text::decimal(frame.payload.len())
                        + " bytes"@,
                ),
            ),
        }
    } else {
        OutputView::Stop(Some("Unknown frame endpoint = "@ + frame.frame_type.name_text()))
    }
}

/// What to do after a step of reading the channel.
pub open spec fn output_of<E>(progress: ProgressView<E>, exits: bool) -> OutputView<E> {
    match progress {
        ProgressView::More => OutputView::More,
        ProgressView::Frame(frame) => shown(frame, exits),
        ProgressView::End => OutputView::Stop(None),
        ProgressView::Invalid(error) => OutputView::Invalid(error),
        ProgressView::Failed(error) => OutputView::Failed(error),
    }
}

/// One step of decoding frames from the channel and writing payloads to the
/// local terminal. With `exits` the server reports the exit code of the
/// command, without it an exit frame is an unknown one.
pub fn output_step<E>(progress: Progress<E>, exits: bool) -> (output: Output<E>)
    ensures
        output@ == output_of(progress@, exits),
{
    match progress {
        Progress::More => Output::More,
        Progress::End => Output::Stop(None),
        Progress::Invalid(error) => Output::Invalid(error),
        Progress::Failed(error) => Output::Failed(error),
        Progress::Frame(frame) => {
            if frame.frame_type == FrameType::Stdout {
                Output::Stdout(frame.payload)
            } else if frame.frame_type == FrameType::Stderr {
                Output::Stderr(frame.payload)
            } else if frame.frame_type == FrameType::Exit && exits {
                match frame.as_exit() {
                    Some(code) => Output::Exit(code),
                    None => {
                        let mut complaint = "Malformed exit frame: ".to_string();
                        complaint.append(to_decimal(frame.payload.len() as u64).as_str());
                        complaint.append(" bytes");
                        Output::Stop(Some(complaint))
                    },
                }
            } else {
                let mut complaint = "Unknown frame endpoint = ".to_string();
                complaint.append(frame.frame_type.name());
                Output::Stop(Some(complaint))
            }
        },
    }
}

/// What one read of the local stdin came to; `E` is its error.
pub enum InputRead<'a, E> {
    /// Some bytes.
    Data(&'a [u8]),
    /// Stdin has ended.
    Eof,
    /// There is nothing to read just now.
    Retry,
    /// The read failed.
    Failed(E),
}

/// How reading the local stdin goes on.
#[derive(Debug, PartialEq, Eq)]
pub enum InputNext<E> {
    /// Read on; a frame that cannot be sent ends the input all the same.
    Continue,
    /// Give others a chance, then read on.
    Yield,
    /// The input is over, the session goes on.
    Ended,
    /// The user quit the session.
    Quit,
    /// Reading failed.
    Failed(E),
}

/// The empty stdin frame that tells the server of the end of stdin, where it is
/// told.
pub open spec fn eof_frames(tells_eof: bool) -> Seq<FrameView> {
    if tells_eof {
        seq![FrameView { frame_type: FrameType::Stdin, payload: Seq::empty() }]
    } else {
        Seq::empty()
    }
}

/// Whether each of `frames` is a stdin frame that can be sent; only the last one
/// may be empty, and is if `ends`.
pub open spec fn stdin_run(frames: Seq<FrameView>, ends: bool) -> bool {
    &&& ends ==> frames.len() > 0
    &&& forall|i: int|
        0 <= i < frames.len() ==> {
            let frame = #[trigger] frames[i];
            &&& frame.frame_type is Stdin
            &&& frame.fits()
            &&& frame.payload.len() == 0 <==> ends && i == frames.len() - 1
        }
}

/// Frames put in front of a run of stdin frames make a longer one.
proof fn lemma_longer_run(front: Seq<FrameView>, back: Seq<FrameView>, ends: bool)
    requires
        stdin_run(front, false),
        stdin_run(back, ends),
    ensures
        stdin_run(front + back, ends),
{
    let frames = front + back;
    assert forall|i: int| 0 <= i < frames.len() implies {
        let frame = #[trigger] frames[i];
        &&& frame.frame_type is Stdin
        &&& frame.fits()
        &&& frame.payload.len() == 0 <==> ends && i == frames.len() - 1
    } by {
        if i < front.len() {
            assert(frames[i] == front[i]);
        } else {
            assert(frames[i] == back[i - front.len()]);
        }
    }
}

/// The end of stdin sends a held `Ctrl-]`, if there is one, and then tells of
/// the end.
proof fn lemma_last_frames(escaped: bool, tells_eof: bool)
    ensures
        ({
            let frames = chunked(FrameType::Stdin, held(escaped)) + eof_frames(tells_eof);
            payloads(frames, FrameType::Stdin) == held(escaped) && stdin_run(frames, tells_eof)
        }),
{
    let front = chunked(FrameType::Stdin, held(escaped));
    let back = eof_frames(tells_eof);
    crate::frame::law_chunks_carry_all(FrameType::Stdin, held(escaped));
    crate::frame::lemma_payloads_joined(front, back, FrameType::Stdin);
    assert(payloads(back, FrameType::Stdin) =~= Seq::empty()) by {
        if tells_eof {
            assert(payloads(back.drop_first(), FrameType::Stdin) =~= Seq::empty());
        }
    }
    assert(payloads(front + back, FrameType::Stdin) =~= held(escaped));
    lemma_longer_run(front, back, tells_eof);
}

/// One step of reading the local stdin: filter the escape sequence, forward the
/// rest. Returns the frames to send and how to go on. At the end of stdin a held
/// `Ctrl-]` is no escape any more and is forwarded; with `tells_eof` the end is
/// then passed on to the server as an empty stdin frame.
pub fn input_step<'a, E>(read: InputRead<'a, E>, escaped: &mut bool, tells_eof: bool) -> (step: (
    Vec<Frame>,
    InputNext<E>,
))
    ensures
        match read {
            InputRead::Data(bytes) => {
                let typed = held(*old(escaped)) + bytes@;
                &&& frames_view(step.0@) == chunked(FrameType::Stdin, forwarded(typed))
                &&& payloads(frames_view(step.0@), FrameType::Stdin) == forwarded(typed)
                &&& stdin_run(frames_view(step.0@), false)
                &&& step.1 == (if quits(typed) {
                    InputNext::<E>::Quit
                } else {
                    InputNext::<E>::Continue
                })
                &&& *final(escaped) == holds(typed)
            },
            InputRead::Eof => {
                &&& frames_view(step.0@) == chunked(FrameType::Stdin, held(*old(escaped)))
                    + eof_frames(tells_eof)
                &&& payloads(frames_view(step.0@), FrameType::Stdin) == held(*old(escaped))
                &&& stdin_run(frames_view(step.0@), tells_eof)
                &&& step.1 is Ended
                &&& !*final(escaped)
            },
            InputRead::Retry => step.0@.len() == 0 && step.1 is Yield && *final(escaped) == *old(
                escaped,
            ),
            InputRead::Failed(error) => step.0@.len() == 0 && step.1 == InputNext::<E>::Failed(
                error,
            ) && *final(escaped) == *old(escaped),
        },
{
    match read {
        InputRead::Data(bytes) => {
            let (payload, quit) = filter_escape(bytes, escaped);
            let frames = Frame::chunks(FrameType::Stdin, payload);
            proof {
                crate::frame::law_chunks_carry_all(FrameType::Stdin, payload@);
            }
            let next = if quit {
                InputNext::Quit
            } else {
                InputNext::Continue
            };
            (frames, next)
        },
        InputRead::Eof => {
            let mut rest: Vec<u8> = Vec::new();
            if *escaped {
                rest.push(ESCAPE);
                *escaped = false;
            }
            assert(rest@ =~= held(*old(escaped)));
            let mut frames = Frame::chunks(FrameType::Stdin, rest);
            let ghost before = frames_view(frames@);
            if tells_eof {
                frames.push(Frame::stdin_eof());
            }
            proof {
                assert(frames_view(frames@) =~= before + eof_frames(tells_eof));
                lemma_last_frames(*old(escaped), tells_eof);
            }
            (frames, InputNext::Ended)
        },
        InputRead::Retry => (Vec::new(), InputNext::Yield),
        InputRead::Failed(error) => (Vec::new(), InputNext::Failed(error)),
    }
}

/// The end of one of the workers of a session.
#[derive(Debug, PartialEq, Eq)]
pub enum WorkerEnd<E> {
    /// The output is over, maybe with the exit code of the command.
    Output(Result<Option<i32>, E>),
    /// The input is over; `true` if the user quit.
    Input(Result<bool, E>),
    /// No more resize events are forwarded.
    Resize(Result<(), E>),
}

/// How a session ends when one of its workers does, if it ends. Where the server
/// is told of the end of stdin (`tells_eof`), that does not end the session: the
/// command is still running, and its exit frame arrives with the output.
pub open spec fn end_of<E>(worker: WorkerEnd<E>, tells_eof: bool) -> Option<
    Result<Option<i32>, E>,
> {
    match worker {
        WorkerEnd::Output(result) => Some(result),
        WorkerEnd::Input(Ok(quit)) => if quit || !tells_eof {
            Some(Ok(None))
        } else {
            None
        },
        WorkerEnd::Input(Err(error)) => Some(Err(error)),
        WorkerEnd::Resize(Ok(())) => Some(Ok(None)),
        WorkerEnd::Resize(Err(error)) => Some(Err(error)),
    }
}

/// Judge whether, and how, the end of a worker ends the session.
pub fn session_end<E>(worker: WorkerEnd<E>, tells_eof: bool) -> (end: Option<
    Result<Option<i32>, E>,
>)
    ensures
        end == end_of(worker, tells_eof),
{
    match worker {
        WorkerEnd::Output(result) => Some(result),
        WorkerEnd::Input(Ok(quit)) => if quit || !tells_eof {
            Some(Ok(None))
        } else {
            None
        },
        WorkerEnd::Input(Err(error)) => Some(Err(error)),
        WorkerEnd::Resize(Ok(())) => Some(Ok(None)),
        WorkerEnd::Resize(Err(error)) => Some(Err(error)),
    }
}

/// The exit code that a session ends our own process with: that of the command
/// if it was reported, success if the session ended without one, failure if the
/// session failed.
pub open spec fn session_code<E>(end: Result<Option<i32>, E>) -> u8 {
    match end {
        Ok(Some(code)) => crate::status::own_code(Some(code)),
        Ok(None) => 0,
        Err(_) => 1,
    }
}

/// The exit code that a session ends our own process with.
pub fn shell_exit_code<E>(end: &Result<Option<i32>, E>) -> (code: u8)
    ensures
        code == session_code(*end),
{
    match end {
        Ok(Some(code)) => propagate_status(Some(*code)),
        Ok(None) => 0,
        Err(_) => 1,
    }
}

/// What a session shows, and the exit code it ends with.
pub struct Transcript {
    pub stdout: Seq<u8>,
    pub stderr: Seq<u8>,
    pub code: Option<i32>,
}

/// The session over a run of frames from a server; `exits` tells whether it
/// reports exit codes.
pub open spec fn transcript(frames: Seq<FrameView>, exits: bool) -> Transcript
    decreases frames.len(),
{
    if frames.len() == 0 {
        Transcript { stdout: Seq::empty(), stderr: Seq::empty(), code: None }
    } else {
        let later = transcript(frames.drop_first(), exits);
        match shown::<()>(frames[0], exits) {
            OutputView::Stdout(bytes) => Transcript { stdout: bytes + later.stdout, ..later },
            OutputView::Stderr(bytes) => Transcript { stderr: bytes + later.stderr, ..later },
            OutputView::Exit(code) => Transcript {
                stdout: Seq::empty(),
                stderr: Seq::empty(),
                code: Some(code),
            },
            _ => Transcript { stdout: Seq::empty(), stderr: Seq::empty(), code: None },
        }
    }
}

/// The session of a command that writes and then exits: all it wrote is shown,
/// each stream in order, and nothing behind the exit frame matters. Its code is the
/// session's where the server reports codes.
pub proof fn law_session_of_a_command(
    output: Seq<FrameView>,
    code: i32,
    behind: Seq<FrameView>,
    exits: bool,
)
    requires
        forall|i: int|
            0 <= i < output.len() ==> (#[trigger] output[i]).frame_type is Stdout
                || output[i].frame_type is Stderr,
    ensures
        transcript(output + seq![FrameView::of_exit_code(code)] + behind, exits) == (Transcript {
            stdout: payloads(output, FrameType::Stdout),
            stderr: payloads(output, FrameType::Stderr),
            code: if exits {
                Some(code)
            } else {
                None
            },
        }),
    decreases output.len(),
{
    let exit = FrameView::of_exit_code(code);
    let frames = output + seq![exit] + behind;
    crate::frame::law_exit_round_trip(code);
    if output.len() == 0 {
        assert(frames[0] == exit);
    } else {
        let rest = output.drop_first();
        assert(frames[0] == output[0]);
        assert(frames.drop_first() =~= rest + seq![exit] + behind);
        assert forall|i: int| 0 <= i < rest.len() implies (#[trigger] rest[i]).frame_type is Stdout
            || rest[i].frame_type is Stderr by {
            assert(rest[i] == output[i + 1]);
        }
        law_session_of_a_command(rest, code, behind, exits);
        let stdout = payloads(rest, FrameType::Stdout);
        let stderr = payloads(rest, FrameType::Stderr);
        assert(Seq::<u8>::empty() + stdout =~= stdout);
        assert(Seq::<u8>::empty() + stderr =~= stderr);
    }
}

/// The exit code of the command in the guest becomes our own: what the server
/// makes of the wait status, sends, and the client receives, is the code that
/// the client's process ends with.
pub proof fn law_exit_code_reaches_the_host<E>(status: i32)
    ensures
        shown::<E>(
            FrameView::of_exit_code(crate::status::shell_code(status) as i32),
            true,
        ) == OutputView::<E>::Exit(crate::status::shell_code(status) as i32),
        session_code(Ok::<Option<i32>, E>(Some(crate::status::shell_code(status) as i32)))
            == crate::status::shell_code(status),
{
    crate::frame::law_exit_round_trip(crate::status::shell_code(status) as i32);
    crate::status::law_shell_code_fits_a_byte(status);
}

/// The frames that a run of reads of stdin sends, up to the escape sequence or to
/// the end of stdin behind the reads; `escaped` tells whether a `Ctrl-]` is held
/// at its start.
pub open spec fn sent_frames(escaped: bool, reads: Seq<Seq<u8>>, tells_eof: bool) -> Seq<FrameView>
    decreases reads.len(),
{
    if reads.len() == 0 {
        chunked(FrameType::Stdin, held(escaped)) + eof_frames(tells_eof)
    } else {
        let typed = held(escaped) + reads[0];
        if quits(typed) {
            chunked(FrameType::Stdin, forwarded(typed))
        } else {
            chunked(FrameType::Stdin, forwarded(typed)) + sent_frames(
                holds(typed),
                reads.drop_first(),
                tells_eof,
            )
        }
    }
}

/// What was read over a run of reads.
pub open spec fn all_read(reads: Seq<Seq<u8>>) -> Seq<u8>
    decreases reads.len(),
{
    if reads.len() == 0 {
        Seq::empty()
    } else {
        reads[0] + all_read(reads.drop_first())
    }
}

/// The shell gets what was typed, however the typing was cut into reads: all of
/// it, or what stands in front of the escape sequence. It arrives in stdin frames
/// that fit and are not empty, but for the one that tells of the end of stdin and
/// comes last.
pub proof fn law_shell_gets_what_was_typed(escaped: bool, reads: Seq<Seq<u8>>, tells_eof: bool)
    ensures
        ({
            let typed = held(escaped) + all_read(reads);
            let frames = sent_frames(escaped, reads, tells_eof);
            &&& payloads(frames, FrameType::Stdin) == (if quits(typed) {
                forwarded(typed)
            } else {
                typed
            })
            &&& stdin_run(frames, tells_eof && !quits(typed))
        }),
    decreases reads.len(),
{
    let all = held(escaped) + all_read(reads);
    if reads.len() == 0 {
        assert(all =~= held(escaped));
        assert(!quits(all));
        lemma_last_frames(escaped, tells_eof);
    } else {
        let typed = held(escaped) + reads[0];
        let rest = reads.drop_first();
        let more = all_read(rest);
        let front = chunked(FrameType::Stdin, forwarded(typed));
        crate::frame::law_chunks_carry_all(FrameType::Stdin, forwarded(typed));
        crate::escape::law_cuts_do_not_matter(typed, more);
        assert(all =~= typed + more);
        if !quits(typed) {
            let next = held(holds(typed)) + more;
            let back = sent_frames(holds(typed), rest, tells_eof);
            law_shell_gets_what_was_typed(holds(typed), rest, tells_eof);
            crate::frame::lemma_payloads_joined(front, back, FrameType::Stdin);
            crate::escape::law_no_byte_is_lost(typed);
            assert(forwarded(typed) + next =~= all);
            lemma_longer_run(front, back, tells_eof && !quits(all));
        }
    }
}

/// What the command writes is shown on the stream it was written to, whatever it
/// is and whether or not the server reports exit codes; a reported code is the
/// command's.
pub proof fn law_output_is_shown<E>(payload: Seq<u8>, exits: bool, code: i32)
    ensures
        shown::<E>(FrameView { frame_type: FrameType::Stdout, payload }, exits) == OutputView::<
            E,
        >::Stdout(payload),
        shown::<E>(FrameView { frame_type: FrameType::Stderr, payload }, exits) == OutputView::<
            E,
        >::Stderr(payload),
        shown::<E>(FrameView::of_exit_code(code), true) == OutputView::<E>::Exit(code),
{
    crate::frame::law_exit_round_trip(code);
}

/// Any other frame ends the session with a complaint that tells what came: the
/// type of the frame, or how long a malformed exit frame is.
pub proof fn law_other_frames_are_complained_about<E>(frame: FrameView, exits: bool)
    requires
        !(frame.frame_type is Stdout),
        !(frame.frame_type is Stderr),
    ensures
        !(frame.frame_type is Exit && exits) ==> shown::<E>(frame, exits) == OutputView::<E>::Stop(
            Some("Unknown frame endpoint = "@ + frame.frame_type.name_text()),
        ),
        frame.frame_type is Exit && exits && frame.payload.len() != 4 ==> (shown::<E>(
            frame,
            exits,
        ) matches OutputView::Stop(Some(complaint)) && crate::text::tells(
            complaint,
            "Malformed exit frame: "@,
            frame.payload.len(),
            " bytes"@,
        )),
{
    crate::text::lemma_tells("Malformed exit frame: "@, frame.payload.len(), " bytes"@);
}

/// What reading the channel came to is handed on: an incomplete frame shows
/// nothing, the end of the channel ends the session without a word, an error is
/// handed on as it is.
pub proof fn law_reading_is_handed_on<E>(error: ErrorView, failure: E, exits: bool)
    ensures
        output_of(ProgressView::<E>::More, exits) is More,
        output_of(ProgressView::<E>::End, exits) == OutputView::<E>::Stop(None),
        output_of(ProgressView::<E>::Invalid(error), exits) == OutputView::<E>::Invalid(error),
        output_of(ProgressView::Failed(failure), exits) == OutputView::Failed(failure),
{
}

/// What is read off the channel is shown frame by frame.
pub proof fn law_frames_are_shown<E>(payload: Seq<u8>, code: i32, exits: bool)
    ensures
        output_of(
            ProgressView::<E>::Frame(FrameView { frame_type: FrameType::Stdout, payload }),
            exits,
        ) == OutputView::<E>::Stdout(payload),
        output_of(
            ProgressView::<E>::Frame(FrameView { frame_type: FrameType::Stderr, payload }),
            exits,
        ) == OutputView::<E>::Stderr(payload),
        output_of(ProgressView::<E>::Frame(FrameView::of_exit_code(code)), true) == OutputView::<
            E,
        >::Exit(code),
{
    law_output_is_shown::<E>(payload, exits, code);
}

/// A session ends when a worker does, with what the worker came to; only the plain
/// end of stdin, where the server is told of it, does not end it.
pub proof fn law_workers_end_the_session<E>(
    result: Result<Option<i32>, E>,
    error: E,
    tells_eof: bool,
)
    ensures
        end_of(WorkerEnd::Output(result), tells_eof) == Some(result),
        end_of(WorkerEnd::<E>::Input(Ok(true)), tells_eof) == Some(Ok::<Option<i32>, E>(None)),
        end_of(WorkerEnd::<E>::Input(Ok(false)), true) is None,
        end_of(WorkerEnd::<E>::Input(Ok(false)), false) == Some(Ok::<Option<i32>, E>(None)),
        end_of(WorkerEnd::Input(Err(error)), tells_eof) == Some(Err::<Option<i32>, E>(error)),
        end_of(WorkerEnd::<E>::Resize(Ok(())), tells_eof) == Some(Ok::<Option<i32>, E>(None)),
        end_of(WorkerEnd::Resize(Err(error)), tells_eof) == Some(Err::<Option<i32>, E>(error)),
{
}

/// The command's code is our own where it fits in a byte, and the largest byte
/// where it does not; without one a session that did not fail succeeds.
pub proof fn law_session_code<E>(code: i32, error: E)
    ensures
        0 <= code <= 255 ==> session_code(Ok::<Option<i32>, E>(Some(code))) == code,
        code < 0 || code > 255 ==> session_code(Ok::<Option<i32>, E>(Some(code))) == 255,
        session_code(Ok::<Option<i32>, E>(None)) == 0,
        session_code(Err::<Option<i32>, E>(error)) == 1,
{
}

} // verus!
