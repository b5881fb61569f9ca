//! The course of a session on the server: from the greeting over the command's
//! run to its exit code.
//!
//! The session itself does nothing: it tells what to do next, and is told what
//! came of it.
use crate::frame::{Frame, FrameType, FrameView};
use crate::path::FilePath;
use crate::status::{exit_code, WaitOutcome};
use vstd::prelude::*;
use vstd::utf8::encode_utf8;

verus! {

/// Where the PTYs of the guest are mounted.
pub const DEVPTS: &'static str = "/dev/pts";

/// What the first frame from a client comes to; `E` is the channel's error.
#[derive(Debug, PartialEq, Eq)]
pub enum InitialSize<E> {
    /// The size of the client's terminal.
    Size(u16, u16),
    /// The channel failed.
    Failed(E),
    /// The client has gone.
    Closed,
    /// The frame is no well-formed resize event.
    Unexpected(FrameType),
}

/// The initial size in the first frame from a client, `None` at the end of the
/// channel.
pub fn initial_size<E>(first: Option<Result<Frame, E>>) -> (size: InitialSize<E>)
    ensures
        match first {
            None => size is Closed,
            Some(Err(error)) => size == InitialSize::<E>::Failed(error),
            Some(Ok(frame)) => match frame@.size() {
                Some((cols, rows)) => size == InitialSize::<E>::Size(cols, rows),
                None => size == InitialSize::<E>::Unexpected(frame.frame_type),
            },
        },
{
    match first {
        None => InitialSize::Closed,
        Some(Err(error)) => InitialSize::Failed(error),
        Some(Ok(frame)) => match frame.as_resize() {
            Some((cols, rows)) => InitialSize::Size(cols, rows),
            None => InitialSize::Unexpected(frame.frame_type),
        },
    }
}

/// How far a session has come.
#[derive(Debug, PartialEq, Eq)]
pub enum State<E> {
    /// The start frame is being sent.
    Greeting,
    /// The PTY is being opened.
    Opening,
    /// The client's first frame is awaited.
    Sizing,
    /// The size is being applied, arguments and environment are being built.
    Preparing,
    /// The PTYs are being moved into the new root.
    Mounting,
    /// The process is being forked.
    Forking,
    /// The client's input is being connected.
    Starting,
    /// The command's output is being pumped.
    Pumping,
    /// The command is being reaped.
    Reaping { pump: Result<(), E> },
    /// The PTYs are being moved back.
    Restoring { pump: Result<(), E>, status: Result<i32, E> },
    /// A failure to move the PTYs back is being reported.
    Warning { pump: Result<(), E>, status: Result<i32, E> },
    /// The exit code is being sent.
    Reporting,
    /// The session is over.
    Closed,
}

/// What came of the last action.
#[derive(Debug, PartialEq, Eq)]
pub enum Event<E> {
    /// It is done.
    Done,
    /// It failed.
    Failed(E),
    /// A frame was read.
    Frame(Frame),
    /// The channel has ended.
    Eof,
    /// This is the forked process.
    Child,
    /// This is the process that forked.
    Parent,
    /// The command has ended with this wait status.
    Reaped(i32),
}

/// What an [`Event`] says.
pub enum EventView<E> {
    Done,
    Failed(E),
    Frame(FrameView),
    Eof,
    Child,
    Parent,
    Reaped(i32),
}

impl<E> View for Event<E> {
    type V = EventView<E>;

    open spec fn view(&self) -> EventView<E> {
        match *self {
            Event::Done => EventView::Done,
            Event::Failed(error) => EventView::Failed(error),
            Event::Frame(frame) => EventView::Frame(frame@),
            Event::Eof => EventView::Eof,
            Event::Child => EventView::Child,
            Event::Parent => EventView::Parent,
            Event::Reaped(status) => EventView::Reaped(status),
        }
    }
}

/// A breach of the protocol, or a channel that cannot even be greeted.
#[derive(Debug, PartialEq, Eq)]
pub enum Crash<E> {
    /// The start frame could not be sent.
    NoGreeting(E),
    /// The channel was closed before the initial resize.
    NoSize,
    /// The client's first frame is no well-formed resize event.
    UnexpectedFrame(FrameType),
}

/// What to do next.
#[derive(Debug, PartialEq, Eq)]
pub enum Action<E> {
    /// Send a frame.
    Send(Frame),
    /// Open the PTY.
    OpenPty,
    /// Read a frame.
    ReadFrame,
    /// Give the PTY its size, build arguments and environment.
    Prepare { cols: u16, rows: u16 },
    /// Move a mounted filesystem.
    MoveMount { from: FilePath, to: FilePath },
    /// Fork.
    Fork,
    /// Become the command.
    Exec,
    /// Connect the client's input to the PTY.
    Start,
    /// Pump the command's output to the client.
    Pump,
    /// Wait for the command to end.
    Wait,
    /// Report that the PTYs could not be moved back.
    Warn(E),
    /// The session is over.
    Finish(Result<(), E>),
    /// Give up.
    Crash(Crash<E>),
    /// There is nothing left to do.
    Rest,
}

/// What an [`Action`] says.
pub enum ActionView<E> {
    Send(FrameView),
    OpenPty,
    ReadFrame,
    Prepare { cols: u16, rows: u16 },
    MoveMount { from: Seq<u8>, to: Seq<u8> },
    Fork,
    Exec,
    Start,
    Pump,
    Wait,
    Warn(E),
    Finish(Result<(), E>),
    Crash(Crash<E>),
    Rest,
}

impl<E> View for Action<E> {
    type V = ActionView<E>;

    open spec fn view(&self) -> ActionView<E> {
        match *self {
            Action::Send(frame) => ActionView::Send(frame@),
            Action::OpenPty => ActionView::OpenPty,
            Action::ReadFrame => ActionView::ReadFrame,
            Action::Prepare { cols, rows } => ActionView::Prepare { cols, rows },
            Action::MoveMount { from, to } => ActionView::MoveMount { from: from@, to: to@ },
            Action::Fork => ActionView::Fork,
            Action::Exec => ActionView::Exec,
            Action::Start => ActionView::Start,
            Action::Pump => ActionView::Pump,
            Action::Wait => ActionView::Wait,
            Action::Warn(error) => ActionView::Warn(error),
            Action::Finish(result) => ActionView::Finish(result),
            Action::Crash(crash) => ActionView::Crash(crash),
            Action::Rest => ActionView::Rest,
        }
    }
}

/// Where the PTYs go while the command runs in the root directory `root`.
pub open spec fn devpts_in(root: Seq<u8>) -> Seq<u8> {
    crate::path::joined(root, encode_utf8("dev/pts"@))
}

/// The start frame: no payload.
pub open spec fn start_frame() -> FrameView {
    FrameView { frame_type: FrameType::Start, payload: Seq::empty() }
}

/// The end of a session whose command ran: a failure to pump or to wait is the
/// session's own, otherwise the exit code goes out.
pub open spec fn concluded<E>(pump: Result<(), E>, status: Result<i32, E>) -> (
    State<E>,
    ActionView<E>,
) {
    match (pump, status) {
        (Err(error), _) => (State::Closed, ActionView::Finish(Err(error))),
        (Ok(()), Err(error)) => (State::Closed, ActionView::Finish(Err(error))),
        (Ok(()), Ok(status)) => (
            State::Reporting,
            ActionView::Send(
                FrameView::of_exit_code(crate::status::shell_code(status) as i32),
            ),
        ),
    }
}

/// What follows once the command is reaped: with a new root the PTYs are moved
/// back first, even if pumping or waiting failed.
pub open spec fn reaped<E>(
    root: Option<Seq<u8>>,
    pump: Result<(), E>,
    status: Result<i32, E>,
) -> (State<E>, ActionView<E>) {
    match root {
        Some(root) => (
            State::Restoring { pump, status },
            ActionView::MoveMount { from: devpts_in(root), to: encode_utf8(DEVPTS@) },
        ),
        None => concluded(pump, status),
    }
}

/// One step of a session in the root directory `root`, if it has one of its
/// own.
pub open spec fn stepped<E>(root: Option<Seq<u8>>, state: State<E>, event: EventView<E>) -> (
    State<E>,
    ActionView<E>,
) {
    match (state, event) {
        (State::Closed, _) => (State::Closed, ActionView::Rest),
        (State::Greeting, EventView::Failed(error)) => (
            State::Closed,
            ActionView::Crash(Crash::NoGreeting(error)),
        ),
        (State::Pumping, EventView::Failed(error)) => (
            State::Reaping { pump: Err(error) },
            ActionView::Wait,
        ),
        (State::Reaping { pump }, EventView::Failed(error)) => reaped(root, pump, Err(error)),
        (State::Restoring { pump, status }, EventView::Failed(error)) => (
            State::Warning { pump, status },
            ActionView::Warn(error),
        ),
        (State::Warning { pump, status }, _) => concluded(pump, status),
        (_, EventView::Failed(error)) => (State::Closed, ActionView::Finish(Err(error))),
        (State::Greeting, _) => (State::Opening, ActionView::OpenPty),
        (State::Opening, _) => (State::Sizing, ActionView::ReadFrame),
        (State::Sizing, EventView::Frame(frame)) => match frame.size() {
            Some((cols, rows)) => (State::Preparing, ActionView::Prepare { cols, rows }),
            None => (
                State::Closed,
                ActionView::Crash(Crash::UnexpectedFrame(frame.frame_type)),
            ),
        },
        (State::Sizing, _) => (State::Closed, ActionView::Crash(Crash::NoSize)),
        (State::Preparing, _) => match root {
            Some(root) => (
                State::Mounting,
                ActionView::MoveMount { from: encode_utf8(DEVPTS@), to: devpts_in(root) },
            ),
            None => (State::Forking, ActionView::Fork),
        },
        (State::Mounting, _) => (State::Forking, ActionView::Fork),
        (State::Forking, EventView::Child) => (State::Closed, ActionView::Exec),
        (State::Forking, _) => (State::Starting, ActionView::Start),
        (State::Starting, _) => (State::Pumping, ActionView::Pump),
        (State::Pumping, _) => (State::Reaping { pump: Ok(()) }, ActionView::Wait),
        (State::Reaping { pump }, EventView::Reaped(status)) => reaped(root, pump, Ok(status)),
        (State::Reaping { pump }, _) => (State::Reaping { pump }, ActionView::Wait),
        (State::Restoring { pump, status }, _) => concluded(pump, status),
        (State::Reporting, _) => (State::Closed, ActionView::Finish(Ok(()))),
    }
}

/// A session on the server.
pub struct Session<E> {
    root: Option<FilePath>,
    state: State<E>,
}

impl<E> Session<E> {
    /// The root directory that the command is to run in.
    pub closed spec fn root(self) -> Option<Seq<u8>> {
        match self.root {
            Some(root) => Some(root@),
            None => None,
        }
    }

    /// How far the session has come.
    pub closed spec fn state(self) -> State<E> {
        self.state
    }

    /// Begin a session, with the root directory for the command if it is to
    /// have one of its own. A start frame makes the server block until a client
    /// arrives.
    pub fn begin(root: Option<FilePath>) -> (begun: (Self, Action<E>))
        ensures
            begun.0.state() == State::<E>::Greeting,
            begun.0.root() == (match root {
                Some(root) => Some(root@),
                None => None,
            }),
            begun.1@ == ActionView::<E>::Send(start_frame()),
    {
        let payload: Vec<u8> = Vec::new();
        (
            Session { root, state: State::Greeting },
            Action::Send(Frame::new(FrameType::Start, payload)),
        )
    }

    /// Take what came of the last action into account.
    pub fn step(self, event: Event<E>) -> (next: (Self, Action<E>))
        ensures
            next.0.root() == self.root(),
            (next.0.state(), next.1@) == stepped(self.root(), self.state(), event@),
    {
        let root = self.root;
        let (state, action) = match self.state {
            State::Closed => (State::Closed, Action::Rest),
            State::Greeting => match event {
                Event::Failed(error) => (State::Closed, Action::Crash(Crash::NoGreeting(error))),
                _ => (State::Opening, Action::OpenPty),
            },
            State::Opening => match event {
                Event::Failed(error) => (State::Closed, Action::Finish(Err(error))),
                _ => (State::Sizing, Action::ReadFrame),
            },
            State::Sizing => {
                let first = match event {
                    Event::Failed(error) => Some(Err(error)),
                    Event::Frame(frame) => Some(Ok(frame)),
                    _ => None,
                };
                match initial_size(first) {
                    InitialSize::Size(cols, rows) => (
                        State::Preparing,
                        Action::Prepare { cols, rows },
                    ),
                    InitialSize::Failed(error) => (State::Closed, Action::Finish(Err(error))),
                    InitialSize::Closed => (State::Closed, Action::Crash(Crash::NoSize)),
                    InitialSize::Unexpected(frame_type) => (
                        State::Closed,
                        Action::Crash(Crash::UnexpectedFrame(frame_type)),
                    ),
                }
            },
            State::Preparing => match event {
                Event::Failed(error) => (State::Closed, Action::Finish(Err(error))),
                _ => match &root {
                    Some(root) => (
                        State::Mounting,
                        Action::MoveMount {
                            from: FilePath::of_text(DEVPTS),
                            to: root.join("dev/pts"),
                        },
                    ),
                    None => (State::Forking, Action::Fork),
                },
            },
            State::Mounting => match event {
                Event::Failed(error) => (State::Closed, Action::Finish(Err(error))),
                _ => (State::Forking, Action::Fork),
            },
            State::Forking => match event {
                Event::Failed(error) => (State::Closed, Action::Finish(Err(error))),
                Event::Child => (State::Closed, Action::Exec),
                _ => (State::Starting, Action::Start),
            },
            State::Starting => match event {
                Event::Failed(error) => (State::Closed, Action::Finish(Err(error))),
                _ => (State::Pumping, Action::Pump),
            },
            State::Pumping => match event {
                Event::Failed(error) => (State::Reaping { pump: Err(error) }, Action::Wait),
                _ => (State::Reaping { pump: Ok(()) }, Action::Wait),
            },
            State::Reaping { pump } => match event {
                Event::Failed(error) => after_reaping(&root, pump, Err(error)),
                Event::Reaped(status) => after_reaping(&root, pump, Ok(status)),
                _ => (State::Reaping { pump }, Action::Wait),
            },
            State::Restoring { pump, status } => match event {
                Event::Failed(error) => (State::Warning { pump, status }, Action::Warn(error)),
                _ => conclude(pump, status),
            },
            State::Warning { pump, status } => conclude(pump, status),
            State::Reporting => match event {
                Event::Failed(error) => (State::Closed, Action::Finish(Err(error))),
                _ => (State::Closed, Action::Finish(Ok(()))),
            },
        };
        (Session { root, state }, action)
    }
}

/// Move the PTYs back, if they were moved, or conclude at once.
fn after_reaping<E>(root: &Option<FilePath>, pump: Result<(), E>, status: Result<i32, E>) -> (next:
    (State<E>, Action<E>))
    ensures
        (next.0, next.1@) == reaped(
            match *root {
                Some(root) => Some(root@),
                None => None,
            },
            pump,
            status,
        ),
{
    match root {
        Some(root) => (
            State::Restoring { pump, status },
            Action::MoveMount { from: root.join("dev/pts"), to: FilePath::of_text(DEVPTS) },
        ),
        None => conclude(pump, status),
    }
}

/// Conclude a session whose command ran.
fn conclude<E>(pump: Result<(), E>, status: Result<i32, E>) -> (next: (State<E>, Action<E>))
    ensures
        (next.0, next.1@) == concluded(pump, status),
{
    match pump {
        Err(error) => (State::Closed, Action::Finish(Err(error))),
        Ok(()) => match status {
            Err(error) => (State::Closed, Action::Finish(Err(error))),
            Ok(status) => (State::Reporting, Action::Send(Frame::exit(exit_code(status)))),
        },
    }
}

/// What the thread that watches over a command and its workers has learnt.
#[derive(Debug, PartialEq, Eq)]
pub enum Watched<E> {
    /// The command was looked after.
    Command(WaitOutcome),
    /// A worker has ended.
    Worker(Result<(), E>),
    /// No worker is left.
    NoWorkers,
}

/// What the thread that watches over a command and its workers does next.
#[derive(Debug, PartialEq, Eq)]
pub enum Watch<E> {
    /// Look after the command.
    LookAfterCommand,
    /// Wait for a worker to end.
    AwaitWorker,
    /// Give up: a worker has failed.
    Crash(E),
    /// Reap the command.
    Reap,
}

/// Watch over a command and its workers: as long as the command runs, each
/// worker that ends is a reason to look after it again.
pub fn supervise<E>(watched: Watched<E>) -> (watch: Watch<E>)
    ensures
        watch == (match watched {
            Watched::Command(WaitOutcome::Running) => Watch::<E>::AwaitWorker,
            Watched::Command(_) => Watch::<E>::Reap,
            Watched::Worker(Ok(())) => Watch::<E>::LookAfterCommand,
            Watched::Worker(Err(error)) => Watch::<E>::Crash(error),
            Watched::NoWorkers => Watch::<E>::Reap,
        }),
{
    match watched {
        Watched::Command(outcome) => match outcome {
            WaitOutcome::Running => Watch::AwaitWorker,
            _ => Watch::Reap,
        },
        Watched::Worker(Ok(())) => Watch::LookAfterCommand,
        Watched::Worker(Err(error)) => Watch::Crash(error),
        Watched::NoWorkers => Watch::Reap,
    }
}

/// The actions of a session over a run of events.
pub open spec fn actions<E>(
    root: Option<Seq<u8>>,
    state: State<E>,
    events: Seq<EventView<E>>,
) -> Seq<ActionView<E>>
    decreases events.len(),
{
    if events.len() == 0 {
        Seq::empty()
    } else {
        let (next, action) = stepped(root, state, events[0]);
        seq![action] + actions(root, next, events.drop_first())
    }
}

/// The old root is left the way it was found: a session that has begun to pump
/// does not finish before it has moved the PTYs back, whatever fails.
pub proof fn law_devpts_is_moved_back<E>(
    root: Seq<u8>,
    state: State<E>,
    events: Seq<EventView<E>>,
    end: int,
)
    requires
        state is Pumping || state is Reaping,
        0 <= end < events.len(),
        actions(Some(root), state, events)[end] is Finish,
    ensures
        exists|i: int|
            0 <= i < end && #[trigger] actions(Some(root), state, events)[i] == (ActionView::<
                E,
            >::MoveMount { from: devpts_in(root), to: encode_utf8(DEVPTS@) }),
    decreases events.len(),
{
    let all = actions(Some(root), state, events);
    let (next, action) = stepped(Some(root), state, events[0]);
    let rest = events.drop_first();
    let later = actions(Some(root), next, rest);
    assert(all == seq![action] + later);
    assert(all[0] == action);
    lemma_one_action_per_event(Some(root), next, rest);
    if next is Reaping {
        assert(end > 0);
        assert(all[end] == later[end - 1]);
        law_devpts_is_moved_back(root, next, rest, end - 1);
        let i = choose|i: int|
            0 <= i < end - 1 && #[trigger] later[i] == (ActionView::<E>::MoveMount {
                from: devpts_in(root),
                to: encode_utf8(DEVPTS@),
            });
        assert(all[i + 1] == later[i]);
    } else {
        assert(end > 0);
    }
}

/// Each event gives rise to one action.
proof fn lemma_one_action_per_event<E>(
    root: Option<Seq<u8>>,
    state: State<E>,
    events: Seq<EventView<E>>,
)
    ensures
        actions(root, state, events).len() == events.len(),
    decreases events.len(),
{
    if events.len() > 0 {
        let (next, action) = stepped(root, state, events[0]);
        lemma_one_action_per_event(root, next, events.drop_first());
    }
}

/// Without a root directory of its own a session moves no mounts.
pub proof fn law_no_root_no_mounts<E>(state: State<E>, event: EventView<E>)
    ensures
        !(stepped(None, state, event).1 is MoveMount),
{
}

/// The wait status of the command, once it is reaped and all its output was
/// pumped.
pub open spec fn status_in_hand<E>(state: State<E>, event: EventView<E>) -> Option<i32> {
    match (state, event) {
        (State::Reaping { pump: Ok(()) }, EventView::Reaped(status)) => Some(status),
        (State::Restoring { pump: Ok(()), status: Ok(status) }, _) => Some(status),
        (State::Warning { pump: Ok(()), status: Ok(status) }, _) => Some(status),
        _ => None,
    }
}

/// The only frame a session sends behind its greeting is the exit frame: it
/// goes out only once all output was pumped and the command was reaped, and it
/// carries the code of the command.
pub proof fn law_exit_frame_is_the_commands<E>(
    root: Option<Seq<u8>>,
    state: State<E>,
    event: EventView<E>,
)
    ensures
        stepped(root, state, event).1 matches ActionView::Send(frame) ==> {
            &&& stepped(root, state, event).0 is Reporting
            &&& status_in_hand(state, event) matches Some(status)
            &&& frame.exit_code() == Some(crate::status::shell_code(status) as i32)
        },
{
    if let Some(status) = status_in_hand(state, event) {
        crate::frame::law_exit_round_trip(crate::status::shell_code(status) as i32);
    }
}

/// The exit frame is the last one a session sends: behind it the session only
/// finishes, and then rests.
pub proof fn law_nothing_follows_the_exit_frame<E>(
    root: Option<Seq<u8>>,
    events: Seq<EventView<E>>,
    i: int,
)
    requires
        0 <= i < events.len(),
    ensures
        actions(root, State::Reporting, events).len() == events.len(),
        i == 0 ==> actions(root, State::Reporting, events)[i] is Finish,
        i > 0 ==> actions(root, State::Reporting, events)[i] is Rest,
{
    lemma_one_action_per_event(root, State::Reporting, events);
    if i > 0 {
        lemma_closed_rests(root, events.drop_first(), i - 1);
    }
}

/// A session that is over rests.
proof fn lemma_closed_rests<E>(root: Option<Seq<u8>>, events: Seq<EventView<E>>, i: int)
    requires
        0 <= i < events.len(),
    ensures
        actions(root, State::Closed, events)[i] is Rest,
    decreases events.len(),
{
    let rest = events.drop_first();
    lemma_one_action_per_event(root, State::Closed, rest);
    if i > 0 {
        lemma_closed_rests(root, rest, i - 1);
    }
}

/// The size that the client sends first is the size that the PTY gets; any other
/// first frame is a breach of the protocol that is named, and a channel that ends
/// before is one too.
pub proof fn law_pty_gets_the_clients_size<E>(
    root: Option<Seq<u8>>,
    cols: u16,
    rows: u16,
    frame: FrameView,
)
    ensures
        stepped(root, State::<E>::Sizing, EventView::Frame(FrameView::of_size(cols, rows))) == (
            State::<E>::Preparing,
            ActionView::<E>::Prepare { cols, rows },
        ),
        !(frame.frame_type is Resize && frame.payload.len() == 4) ==> stepped(
            root,
            State::<E>::Sizing,
            EventView::Frame(frame),
        ) == (
            State::<E>::Closed,
            ActionView::<E>::Crash(Crash::UnexpectedFrame(frame.frame_type)),
        ),
        stepped(root, State::<E>::Sizing, EventView::<E>::Eof) == (
            State::<E>::Closed,
            ActionView::<E>::Crash(Crash::NoSize),
        ),
{
    crate::frame::law_resize_round_trip(cols, rows);
}

/// Where the PTYs are in a new root: `dev/pts` in it, behind one separator.
pub proof fn law_devpts_lies_in_the_root(root: Seq<u8>)
    ensures
        devpts_in(root) == (if root.len() == 0 || root.last() == 0x2f {
            root + encode_utf8("dev/pts"@)
        } else {
            root + seq![0x2fu8] + encode_utf8("dev/pts"@)
        }),
{
    reveal_strlit("dev/pts");
    vstd::utf8::is_ascii_chars_encode_utf8("dev/pts"@);
    assert(devpts_in(root) =~= (if root.len() == 0 || root.last() == 0x2f {
        root + encode_utf8("dev/pts"@)
    } else {
        root + seq![0x2fu8] + encode_utf8("dev/pts"@)
    }));
}

/// The course of a session in which nothing fails: the PTY is opened before the
/// first frame is read and gets the size in it; in a new root the PTYs are moved
/// there before the fork and back once the command is reaped; all output is pumped
/// before that, and the exit frame with the command's code comes last.
pub proof fn law_course_of_a_session<E>(
    root: Option<Seq<u8>>,
    cols: u16,
    rows: u16,
    status: i32,
)
    ensures
        ({
            let open = stepped(root, State::<E>::Greeting, EventView::Done);
            let read = stepped(root, open.0, EventView::Done);
            let prepare = stepped(root, read.0, EventView::Frame(FrameView::of_size(cols, rows)));
            let prepared = stepped(root, prepare.0, EventView::Done);
            let fork = if root is Some {
                stepped(root, prepared.0, EventView::Done)
            } else {
                prepared
            };
            let child = stepped(root, fork.0, EventView::Child);
            let start = stepped(root, fork.0, EventView::Parent);
            let pump = stepped(root, start.0, EventView::Done);
            let wait = stepped(root, pump.0, EventView::Done);
            let reaped = stepped(root, wait.0, EventView::Reaped(status));
            let report = if root is Some {
                stepped(root, reaped.0, EventView::Done)
            } else {
                reaped
            };
            let end = stepped(root, report.0, EventView::Done);
            &&& open.1 is OpenPty
            &&& read.1 is ReadFrame
            &&& prepare.1 == ActionView::<E>::Prepare { cols, rows }
            &&& root matches Some(dir) ==> prepared.1 == (ActionView::<E>::MoveMount {
                from: encode_utf8("/dev/pts"@),
                to: devpts_in(dir),
            })
            &&& fork.1 is Fork
            &&& child.1 is Exec
            &&& start.1 is Start
            &&& pump.1 is Pump
            &&& wait.1 is Wait
            &&& root matches Some(dir) ==> reaped.1 == (ActionView::<E>::MoveMount {
                from: devpts_in(dir),
                to: encode_utf8("/dev/pts"@),
            })
            &&& report.1 matches ActionView::Send(frame)
            &&& frame.exit_code() == Some(crate::status::shell_code(status) as i32)
            &&& end.1 == ActionView::<E>::Finish(Ok(()))
        }),
{
    crate::frame::law_resize_round_trip(cols, rows);
    crate::frame::law_exit_round_trip(crate::status::shell_code(status) as i32);
}

/// What fails before the command runs, or when its code is sent, ends the session
/// with that very error; a client that cannot even be greeted is given up. A
/// session that is over stays over.
pub proof fn law_failures_end_a_session<E>(
    root: Option<Seq<u8>>,
    state: State<E>,
    event: EventView<E>,
    error: E,
)
    ensures
        state is Opening || state is Sizing || state is Preparing || state is Mounting
            || state is Forking || state is Starting || state is Reporting ==> stepped(
            root,
            state,
            EventView::Failed(error),
        ) == (State::<E>::Closed, ActionView::<E>::Finish(Err(error))),
        stepped(root, State::<E>::Greeting, EventView::Failed(error)) == (
            State::<E>::Closed,
            ActionView::<E>::Crash(Crash::NoGreeting(error)),
        ),
        stepped(root, State::<E>::Closed, event) == (State::<E>::Closed, ActionView::<E>::Rest),
{
}

/// The event that says what an action came to.
pub open spec fn came_to<E>(result: Result<(), E>) -> EventView<E> {
    match result {
        Ok(()) => EventView::Done,
        Err(error) => EventView::Failed(error),
    }
}

/// Once the command runs, whatever fails: it is reaped, the PTYs are moved back
/// (and only a warning given if they cannot be), and then the session ends with the
/// first of a failure to pump and a failure to wait, or reports the exit code.
pub proof fn law_first_failure_counts<E>(
    root: Option<Seq<u8>>,
    pump: Result<(), E>,
    status: Result<i32, E>,
    back: Result<(), E>,
)
    ensures
        ({
            let wait = stepped(root, State::<E>::Pumping, came_to(pump));
            let reaped = stepped(
                root,
                wait.0,
                match status {
                    Ok(status) => EventView::Reaped(status),
                    Err(error) => EventView::Failed(error),
                },
            );
            let restored = if root is Some {
                stepped(root, reaped.0, came_to(back))
            } else {
                reaped
            };
            let last = if root is Some && back is Err {
                stepped(root, restored.0, EventView::<E>::Done)
            } else {
                restored
            };
            &&& wait.1 is Wait
            &&& root matches Some(dir) ==> reaped.1 == (ActionView::<E>::MoveMount {
                from: devpts_in(dir),
                to: encode_utf8("/dev/pts"@),
            })
            &&& root is Some ==> (back matches Err(error) ==> restored.1 == ActionView::<E>::Warn(
                error,
            ))
            &&& match (pump, status) {
                (Err(error), _) => last.1 == ActionView::<E>::Finish(Err(error)),
                (Ok(()), Err(error)) => last.1 == ActionView::<E>::Finish(Err(error)),
                (Ok(()), Ok(status)) => last.1 matches ActionView::Send(frame) && frame.exit_code()
                    == Some(crate::status::shell_code(status) as i32),
            }
        }),
{
    if let Ok(status) = status {
        crate::frame::law_exit_round_trip(crate::status::shell_code(status) as i32);
    }
}

} // verus!
