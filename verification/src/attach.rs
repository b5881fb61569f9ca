//! The course of a session on the client: from the server's greeting over the
//! size of the terminal to the workers that bridge it.
//!
//! The client itself does nothing: it tells what to do next, and is told what
//! came of it.
use crate::frame::{Frame, FrameView};
use crate::terminal::{
    check_greeting, end_of, opening_size, session_end, Greeting, WorkerEnd,
};
use vstd::prelude::*;

verus! {

/// How far a client has come.
#[derive(Debug, Clone, Copy, PartialEq, Eq, Structural)]
pub enum Stage {
    /// The server's first frame is awaited.
    Greeting,
    /// The local terminal is being put in raw mode.
    Raw,
    /// The size of the local terminal is being queried.
    Sizing,
    /// The size is being sent.
    Sending,
    /// The workers are being started.
    Starting,
    /// The workers are running.
    Running,
    /// The session is over.
    Closed,
}

/// What came of the last action.
#[derive(Debug, PartialEq, Eq)]
pub enum Event<E> {
    /// It is done.
    Done,
    /// It failed.
    Failed(E),
    /// A frame was read.
    Frame(Frame),
    /// The channel has ended.
    Eof,
    /// The local terminal has this many columns and rows.
    Size(u16, u16),
    /// A worker has ended.
    Worker(WorkerEnd<E>),
}

/// What an [`Event`] says.
pub enum EventView<E> {
    Done,
    Failed(E),
    Frame(FrameView),
    Eof,
    Size(u16, u16),
    Worker(WorkerEnd<E>),
}

impl<E> View for Event<E> {
    type V = EventView<E>;

    open spec fn view(&self) -> EventView<E> {
        match *self {
            Event::Done => EventView::Done,
            Event::Failed(error) => EventView::Failed(error),
            Event::Frame(frame) => EventView::Frame(frame@),
            Event::Eof => EventView::Eof,
            Event::Size(cols, rows) => EventView::Size(cols, rows),
            Event::Worker(worker) => EventView::Worker(worker),
        }
    }
}

/// What to do next.
#[derive(Debug, PartialEq, Eq)]
pub enum Action<E> {
    /// Read a frame.
    ReadFrame,
    /// Put the local terminal in raw mode.
    EnterRawMode,
    /// Query the size of the local terminal.
    QuerySize,
    /// Send a frame.
    Send(Frame),
    /// Start the workers: from now on stdin, resize events and output are
    /// forwarded.
    StartWorkers,
    /// Wait for a worker to end.
    AwaitWorker,
    /// The session is over, maybe with the exit code of the command.
    Finish(Result<Option<i32>, E>),
    /// Give up: the channel failed before there was a greeting.
    CrashFailed(E),
    /// Give up: the server breaks the protocol, in the way described.
    CrashRefused(String),
    /// There is nothing left to do.
    Rest,
}

/// What an [`Action`] says.
pub enum ActionView<E> {
    ReadFrame,
    EnterRawMode,
    QuerySize,
    Send(FrameView),
    StartWorkers,
    AwaitWorker,
    Finish(Result<Option<i32>, E>),
    CrashFailed(E),
    CrashRefused(Seq<char>),
    Rest,
}

impl<E> View for Action<E> {
    type V = ActionView<E>;

    open spec fn view(&self) -> ActionView<E> {
        match *self {
            Action::ReadFrame => ActionView::ReadFrame,
            Action::EnterRawMode => ActionView::EnterRawMode,
            Action::QuerySize => ActionView::QuerySize,
            Action::Send(frame) => ActionView::Send(frame@),
            Action::StartWorkers => ActionView::StartWorkers,
            Action::AwaitWorker => ActionView::AwaitWorker,
            Action::Finish(result) => ActionView::Finish(result),
            Action::CrashFailed(error) => ActionView::CrashFailed(error),
            Action::CrashRefused(message) => ActionView::CrashRefused(message@),
            Action::Rest => ActionView::Rest,
        }
    }
}

/// How a client gets on with its server and its terminal.
#[derive(Debug, Clone, Copy, PartialEq, Eq, Structural)]
pub struct Manners {
    /// Whether the client insists on a terminal: without one it does not even
    /// start.
    pub needs_terminal: bool,
    /// Whether the server is told of the end of stdin.
    pub tells_eof: bool,
}

/// One step of a client.
pub open spec fn stepped<E>(manners: Manners, stage: Stage, event: EventView<E>) -> (
    Stage,
    ActionView<E>,
) {
    match (stage, event) {
        (Stage::Closed, _) => (Stage::Closed, ActionView::Rest),
        (Stage::Greeting, EventView::Failed(error)) => (
            Stage::Closed,
            ActionView::CrashFailed(error),
        ),
        (Stage::Greeting, EventView::Frame(frame)) => if frame.frame_type is Start {
            (Stage::Raw, ActionView::EnterRawMode)
        } else {
            (
                Stage::Closed,
                ActionView::CrashRefused(
                    "Expected start frame. Got: "@ + frame.frame_type.name_text(),
                ),
            )
        },
        (Stage::Greeting, _) => (Stage::Closed, ActionView::CrashRefused("Unexpected EOF"@)),
        (Stage::Raw, EventView::Failed(error)) => if manners.needs_terminal {
            (Stage::Closed, ActionView::Finish(Err(error)))
        } else {
            (Stage::Sizing, ActionView::QuerySize)
        },
        (Stage::Raw, _) => (Stage::Sizing, ActionView::QuerySize),
        (Stage::Sizing, EventView::Failed(error)) => if manners.needs_terminal {
            (Stage::Closed, ActionView::Finish(Err(error)))
        } else {
            (Stage::Sending, ActionView::Send(FrameView::of_size(80, 24)))
        },
        (Stage::Sizing, EventView::Size(cols, rows)) => (
            Stage::Sending,
            ActionView::Send(FrameView::of_size(cols, rows)),
        ),
        (Stage::Sizing, _) => (Stage::Sending, ActionView::Send(FrameView::of_size(80, 24))),
        (_, EventView::Failed(error)) => (Stage::Closed, ActionView::Finish(Err(error))),
        (Stage::Sending, _) => (Stage::Starting, ActionView::StartWorkers),
        (Stage::Starting, _) => (Stage::Running, ActionView::AwaitWorker),
        (Stage::Running, EventView::Worker(worker)) => match end_of(worker, manners.tells_eof) {
            Some(end) => (Stage::Closed, ActionView::Finish(end)),
            None => (Stage::Running, ActionView::AwaitWorker),
        },
        (Stage::Running, _) => (Stage::Running, ActionView::AwaitWorker),
    }
}

/// A client's end of a session.
pub struct Client {
    manners: Manners,
    stage: Stage,
}

impl Client {
    /// How the client gets on with its server and its terminal.
    pub closed spec fn manners(self) -> Manners {
        self.manners
    }

    /// How far the client has come.
    pub closed spec fn stage(self) -> Stage {
        self.stage
    }

    /// Begin a session: the server speaks first.
    pub fn begin<E>(manners: Manners) -> (begun: (Self, Action<E>))
        ensures
            begun.0.manners() == manners,
            begun.0.stage() == Stage::Greeting,
            begun.1@ == ActionView::<E>::ReadFrame,
    {
        (Client { manners, stage: Stage::Greeting }, Action::ReadFrame)
    }

    /// Take what came of the last action into account.
    pub fn step<E>(self, event: Event<E>) -> (next: (Self, Action<E>))
        ensures
            next.0.manners() == self.manners(),
            (next.0.stage(), next.1@) == stepped(self.manners(), self.stage(), event@),
    {
        let manners = self.manners;
        let (stage, action) = match self.stage {
            Stage::Closed => (Stage::Closed, Action::Rest),
            Stage::Greeting => {
                let first = match event {
                    Event::Failed(error) => Some(Err(error)),
                    Event::Frame(frame) => Some(Ok(frame)),
                    _ => None,
                };
                match check_greeting(first) {
                    Greeting::Accepted => (Stage::Raw, Action::EnterRawMode),
                    Greeting::Failed(error) => (Stage::Closed, Action::CrashFailed(error)),
                    Greeting::Refused(message) => (Stage::Closed, Action::CrashRefused(message)),
                }
            },
            Stage::Raw => match event {
                Event::Failed(error) if manners.needs_terminal => (
                    Stage::Closed,
                    Action::Finish(Err(error)),
                ),
                _ => (Stage::Sizing, Action::QuerySize),
            },
            Stage::Sizing => match event {
                Event::Failed(error) if manners.needs_terminal => (
                    Stage::Closed,
                    Action::Finish(Err(error)),
                ),
                Event::Size(cols, rows) => {
                    let (cols, rows) = opening_size(Some((cols, rows)));
                    (Stage::Sending, Action::Send(Frame::resize(cols, rows)))
                },
                _ => {
                    let (cols, rows) = opening_size(None);
                    (Stage::Sending, Action::Send(Frame::resize(cols, rows)))
                },
            },
            Stage::Sending => match event {
                Event::Failed(error) => (Stage::Closed, Action::Finish(Err(error))),
                _ => (Stage::Starting, Action::StartWorkers),
            },
            Stage::Starting => match event {
                Event::Failed(error) => (Stage::Closed, Action::Finish(Err(error))),
                _ => (Stage::Running, Action::AwaitWorker),
            },
            Stage::Running => match event {
                Event::Failed(error) => (Stage::Closed, Action::Finish(Err(error))),
                Event::Worker(worker) => match session_end(worker, manners.tells_eof) {
                    Some(end) => (Stage::Closed, Action::Finish(end)),
                    None => (Stage::Running, Action::AwaitWorker),
                },
                _ => (Stage::Running, Action::AwaitWorker),
            },
        };
        (Client { manners, stage }, action)
    }
}

/// What an action puts on the channel, where the workers put `typed` there once
/// they are started.
pub open spec fn put_on_channel<E>(action: ActionView<E>, typed: Seq<FrameView>) -> Seq<FrameView> {
    match action {
        ActionView::Send(frame) => seq![frame],
        ActionView::StartWorkers => typed,
        _ => Seq::empty(),
    }
}

/// What a client puts on the channel over a run of events.
pub open spec fn on_channel<E>(
    manners: Manners,
    stage: Stage,
    events: Seq<EventView<E>>,
    typed: Seq<FrameView>,
) -> Seq<FrameView>
    decreases events.len(),
{
    if events.len() == 0 {
        Seq::empty()
    } else {
        let (next, action) = stepped(manners, stage, events[0]);
        put_on_channel(action, typed) + on_channel(manners, next, events.drop_first(), typed)
    }
}

/// The size comes first: whatever happens, and whatever is typed, the first frame
/// that a client puts on the channel is a resize event. The server waits for it,
/// so no stdin frame may come before.
pub proof fn law_size_comes_first<E>(
    manners: Manners,
    events: Seq<EventView<E>>,
    typed: Seq<FrameView>,
)
    ensures
        on_channel(manners, Stage::Greeting, events, typed).len() > 0 ==> on_channel(
            manners,
            Stage::Greeting,
            events,
            typed,
        )[0].size() is Some,
{
    lemma_size_comes_first(manners, Stage::Greeting, events, typed);
}

/// The size comes first from every stage up to where it is queried; behind the
/// end nothing comes.
proof fn lemma_size_comes_first<E>(
    manners: Manners,
    stage: Stage,
    events: Seq<EventView<E>>,
    typed: Seq<FrameView>,
)
    requires
        stage is Greeting || stage is Raw || stage is Sizing || stage is Closed,
    ensures
        on_channel(manners, stage, events, typed).len() > 0 ==> on_channel(
            manners,
            stage,
            events,
            typed,
        )[0].size() is Some,
        stage is Closed ==> on_channel(manners, stage, events, typed).len() == 0,
    decreases events.len(),
{
    if events.len() > 0 {
        let (next, action) = stepped(manners, stage, events[0]);
        let rest = events.drop_first();
        let later = on_channel(manners, next, rest, typed);
        match action {
            ActionView::Send(frame) => {
                let (cols, rows) = match events[0] {
                    EventView::Size(cols, rows) => (cols, rows),
                    _ => (80u16, 24u16),
                };
                crate::frame::law_resize_round_trip(cols, rows);
                assert((seq![frame] + later)[0] == frame);
            },
            _ => {
                lemma_size_comes_first(manners, next, rest, typed);
                assert(Seq::<FrameView>::empty() + later =~= later);
            },
        }
    }
}

/// The workers are started only once the size was sent: a client that starts
/// them has just done so, and sends no frame of its own but the size.
pub proof fn law_workers_wait_for_the_size<E>(
    manners: Manners,
    stage: Stage,
    event: EventView<E>,
)
    ensures
        stepped(manners, stage, event).1 is StartWorkers ==> stage is Sending && !(
        event is Failed),
        stepped(manners, stage, event).0 is Sending ==> stepped(manners, stage, event).1 is Send,
        stepped(manners, stage, event).1 matches ActionView::Send(frame) ==> stage is Sizing
            && frame.frame_type is Resize && frame.size() is Some,
{
    if let ActionView::Send(frame) = stepped(manners, stage, event).1 {
        let (cols, rows) = match event {
            EventView::Size(cols, rows) => (cols, rows),
            _ => (80u16, 24u16),
        };
        crate::frame::law_resize_round_trip(cols, rows);
    }
}

/// A worker's end ends the session with what the worker came to: the output's
/// exit code, nothing for a user who quit, the error of one that failed. Only the
/// plain end of stdin, where the server is told of it, leaves the session running.
pub proof fn law_worker_ends_the_session<E>(
    manners: Manners,
    result: Result<Option<i32>, E>,
    error: E,
)
    ensures
        stepped(manners, Stage::Running, EventView::Worker(WorkerEnd::Output(result))) == (
            Stage::Closed,
            ActionView::Finish(result),
        ),
        stepped(manners, Stage::Running, EventView::Worker(WorkerEnd::Input(Ok::<_, E>(true)))) == (
            Stage::Closed,
            ActionView::Finish(Ok::<_, E>(None)),
        ),
        stepped(manners, Stage::Running, EventView::Worker(WorkerEnd::Input(Ok::<_, E>(false))))
            == (if manners.tells_eof {
            (Stage::Running, ActionView::AwaitWorker)
        } else {
            (Stage::Closed, ActionView::Finish(Ok::<_, E>(None)))
        }),
        stepped(manners, Stage::Running, EventView::Worker(WorkerEnd::Input(Err(error)))) == (
            Stage::Closed,
            ActionView::Finish(Err::<Option<i32>, E>(error)),
        ),
        stepped(manners, Stage::Running, EventView::Worker(WorkerEnd::Resize(Ok::<_, E>(())))) == (
            Stage::Closed,
            ActionView::Finish(Ok::<_, E>(None)),
        ),
        stepped(manners, Stage::Running, EventView::Worker(WorkerEnd::Resize(Err(error)))) == (
            Stage::Closed,
            ActionView::Finish(Err::<Option<i32>, E>(error)),
        ),
{
}

/// The course of a session: the server greets, the terminal goes raw, its size is
/// queried and sent as it is, then the workers run until the first of them ends the
/// session. What the start frame carries does not matter.
pub proof fn law_course_of_a_client<E>(
    manners: Manners,
    payload: Seq<u8>,
    cols: u16,
    rows: u16,
    result: Result<Option<i32>, E>,
)
    ensures
        ({
            let greeting = EventView::<E>::Frame(
                FrameView { frame_type: crate::frame::FrameType::Start, payload },
            );
            let raw = stepped(manners, Stage::Greeting, greeting);
            let query = stepped(manners, raw.0, EventView::<E>::Done);
            let size = stepped(manners, query.0, EventView::<E>::Size(cols, rows));
            let start = stepped(manners, size.0, EventView::<E>::Done);
            let wait = stepped(manners, start.0, EventView::<E>::Done);
            let end = stepped(manners, wait.0, EventView::Worker(WorkerEnd::Output(result)));
            &&& raw.1 is EnterRawMode
            &&& query.1 is QuerySize
            &&& size.1 matches ActionView::Send(frame)
            &&& frame.size() == Some((cols, rows))
            &&& start.1 is StartWorkers
            &&& wait.1 is AwaitWorker
            &&& wait.0 is Running
            &&& end.1 == ActionView::Finish(result)
        }),
{
    crate::frame::law_resize_round_trip(cols, rows);
}

/// No session without a greeting: a client goes on from its first event exactly if
/// that is a start frame, and otherwise says what came instead.
pub proof fn law_only_a_start_frame_greets<E>(manners: Manners, event: EventView<E>)
    ensures
        ({
            let (stage, action) = stepped(manners, Stage::Greeting, event);
            &&& stage is Closed <==> !(event matches EventView::Frame(frame)
                && frame.frame_type is Start)
            &&& event is Eof ==> action == ActionView::<E>::CrashRefused("Unexpected EOF"@)
            &&& event matches EventView::Failed(error) ==> action == ActionView::<
                E,
            >::CrashFailed(error)
            &&& event matches EventView::Frame(frame) ==> !(frame.frame_type is Start) ==> action
                == ActionView::<E>::CrashRefused(
                "Expected start frame. Got: "@ + frame.frame_type.name_text(),
            )
        }),
{
}

/// A client that insists on a terminal fails with what is wrong with it; any other
/// does without, and reports 80 columns and 24 rows. A failure from then on is the
/// session's, and a session that is over stays over.
pub proof fn law_failures_of_a_client<E>(manners: Manners, stage: Stage, event: EventView<E>, error: E)
    ensures
        ({
            let (next, action) = stepped(manners, stage, EventView::Failed(error));
            let fails = next is Closed && action == ActionView::<E>::Finish(Err(error));
            &&& manners.needs_terminal && (stage is Raw || stage is Sizing) ==> fails
            &&& !manners.needs_terminal && stage is Raw ==> next is Sizing && action is QuerySize
            &&& !manners.needs_terminal && stage is Sizing ==> next is Sending && (
            action matches ActionView::Send(frame) && frame.size() == Some((80u16, 24u16)))
            &&& stage is Sending || stage is Starting || stage is Running ==> fails
        }),
        stepped(manners, Stage::Closed, event) == (Stage::Closed, ActionView::<E>::Rest),
{
    crate::frame::law_resize_round_trip(80, 24);
}

} // verus!
