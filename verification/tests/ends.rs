use qemu_agent::attach::{self, Client, Manners};
use qemu_agent::error::ErrorKind;
use qemu_agent::path::FilePath;
use qemu_agent::reader::Progress;
use qemu_agent::server::{
    build_env, eof_keys, pump_client_frames, pump_output, type_input, ClientRequest, Input,
    OutputRead, OutputStep,
};
use qemu_agent::session::{
    initial_size, supervise, Action, Crash, Event, InitialSize, Session, Watch, Watched,
};
use qemu_agent::status::{exit_code, propagate_status, try_wait_for, WaitOutcome};
use qemu_agent::terminal::{
    check_greeting, input_step, opening_size, output_step, session_end, shell_exit_code, Greeting,
    InputNext, InputRead, Output, WorkerEnd,
};
use qemu_agent::text::to_decimal;
use qemu_agent::{Error, Frame, FrameType, MAX_PAYLOAD};

#[test]
fn wait_statuses_become_shell_codes() {
    for code in 0..=255 {
        assert_eq!(exit_code(code << 8), code);
    }
    assert_eq!(exit_code(9), 137);
    assert_eq!(exit_code(15), 143);
    assert_eq!(exit_code(11 | 0x80), 139);
    assert_eq!(exit_code(126), 254);
    // stopped, continued
    assert_eq!(exit_code(0x137f), 1);
    assert_eq!(exit_code(0xffff), 1);
    assert_eq!(exit_code(-1), 1);
    assert_eq!(exit_code(i32::MIN), 0);
}

#[test]
fn nonblocking_waits() {
    assert_eq!(try_wait_for(-1), WaitOutcome::Failed);
    assert_eq!(try_wait_for(0), WaitOutcome::Running);
    assert_eq!(try_wait_for(1234), WaitOutcome::Changed);
}

#[test]
fn statuses_become_our_own_code() {
    assert_eq!(propagate_status(Some(0)), 0);
    assert_eq!(propagate_status(Some(255)), 255);
    assert_eq!(propagate_status(Some(256)), 255);
    assert_eq!(propagate_status(Some(-1)), 255);
    assert_eq!(propagate_status(None), 1);
}

#[test]
fn numbers_are_written_in_decimal() {
    for n in [0, 1, 9, 10, 11, 99, 100, 1009, 65535, u64::MAX] {
        assert_eq!(to_decimal(n), format!("{}", n));
    }
}

#[test]
fn the_environment_is_handed_on_but_for_term() {
    let var = |key: &[u8], value: &[u8]| (key.to_vec(), value.to_vec());
    let vars = vec![
        var(b"HOME", b"/root"),
        var(b"TERM", b"vt100"),
        var(b"TERMINAL", b"x=y"),
        var(b"term", b""),
        var(b"BAD", b"a\0b"),
        var(b"B\0AD", b""),
        var(b"ODD", b"\xff"),
    ];
    let expected: Vec<Vec<u8>> = vec![
        b"HOME=/root".to_vec(),
        b"TERMINAL=x=y".to_vec(),
        b"term=".to_vec(),
        b"ODD=\xff".to_vec(),
        b"TERM=xterm-256color".to_vec(),
    ];
    assert_eq!(build_env(&vars), expected);
    assert_eq!(build_env(&vec![]), vec![b"TERM=xterm-256color".to_vec()]);
}

#[test]
fn client_frames_drive_the_pty() {
    let request = |frame: Frame| pump_client_frames::<()>(Progress::Frame(frame), true);
    assert_eq!(
        request(Frame::stdin(b"ls\n".to_vec())),
        ClientRequest::Write {
            bytes: b"ls\n".to_vec()
        }
    );
    assert_eq!(
        request(Frame::stdin_eof()),
        ClientRequest::EndInput
    );
    assert_eq!(
        request(Frame::resize(120, 40)),
        ClientRequest::Resize {
            cols: 120,
            rows: 40
        }
    );
    let refused = |frame: Frame, name: &str| match request(frame) {
        ClientRequest::Invalid(err) => {
            assert_eq!(err.kind(), ErrorKind::InvalidData);
            assert_eq!(err.message(), format!("Unexpected frame type: {name}"));
        }
        other => panic!("{other:?}"),
    };
    refused(Frame::exit(0), "Exit");
    refused(Frame::stdout(vec![]), "Stdout");
    refused(Frame::new(FrameType::Resize, vec![1]), "Resize");
    refused(Frame::new(FrameType::Unknown, vec![]), "Unknown");

    assert_eq!(pump_client_frames::<()>(Progress::More, true), ClientRequest::More);
    assert_eq!(pump_client_frames::<()>(Progress::End, true), ClientRequest::Done);
    assert_eq!(
        pump_client_frames(Progress::Failed("io"), true),
        ClientRequest::Failed("io")
    );
    let invalid = Error::new(ErrorKind::UnexpectedEof, "cut".to_string());
    assert_eq!(
        pump_client_frames::<()>(Progress::Invalid(invalid.clone()), true),
        ClientRequest::Invalid(invalid)
    );
}

#[test]
fn an_empty_stdin_frame_types_nothing_where_no_end_is_told() {
    let request = |frame: Frame| pump_client_frames::<()>(Progress::Frame(frame), false);
    assert_eq!(
        request(Frame::stdin(vec![])),
        ClientRequest::Write { bytes: vec![] }
    );
    assert_eq!(
        request(Frame::stdin(b"x".to_vec())),
        ClientRequest::Write {
            bytes: b"x".to_vec()
        }
    );
    assert_eq!(
        request(Frame::resize(120, 40)),
        ClientRequest::Resize {
            cols: 120,
            rows: 40
        }
    );
    assert!(matches!(
        request(Frame::exit(0)),
        ClientRequest::Invalid(_)
    ));
    let mut last = Some(b'x');
    assert_eq!(type_input(Input::Bytes(vec![]), &mut last), vec![]);
    assert_eq!(last, Some(b'x'));
}

#[test]
fn output_is_chunked_into_frames() {
    assert_eq!(
        pump_output::<()>(FrameType::Stdout, OutputRead::Data(b"out".to_vec())),
        OutputStep::Send(vec![Frame::stdout(b"out".to_vec())])
    );
    assert_eq!(
        pump_output::<()>(FrameType::Stderr, OutputRead::Data(vec![1; MAX_PAYLOAD])),
        OutputStep::Send(vec![Frame::stderr(vec![1; MAX_PAYLOAD])])
    );
    assert_eq!(
        pump_output::<()>(FrameType::Stderr, OutputRead::Data(vec![1; MAX_PAYLOAD + 2])),
        OutputStep::Send(vec![
            Frame::stderr(vec![1; MAX_PAYLOAD]),
            Frame::stderr(vec![1; 2])
        ])
    );
    assert_eq!(
        pump_output::<()>(FrameType::Stdout, OutputRead::Eof),
        OutputStep::Done
    );
    let failed = |hung_up| {
        pump_output(
            FrameType::Stdout,
            OutputRead::Failed {
                error: "io",
                hung_up,
            },
        )
    };
    assert_eq!(failed(true), OutputStep::Done);
    assert_eq!(failed(false), OutputStep::Failed("io"));
}

#[test]
fn the_first_client_frame_is_a_size() {
    assert_eq!(
        initial_size::<()>(Some(Ok(Frame::resize(80, 24)))),
        InitialSize::Size(80, 24)
    );
    assert_eq!(
        initial_size::<()>(Some(Ok(Frame::stdin(vec![])))),
        InitialSize::Unexpected(FrameType::Stdin)
    );
    assert_eq!(initial_size(Some(Err("io"))), InitialSize::Failed("io"));
    assert_eq!(initial_size::<()>(None), InitialSize::Closed);
}

/// Run a session over the given events, the first action included.
fn run_session(
    root: Option<&str>,
    events: Vec<Event<&'static str>>,
) -> Vec<Action<&'static str>> {
    let (mut session, first) = Session::begin(root.map(FilePath::of_text));
    let mut actions = vec![first];
    for event in events {
        let (next, action) = session.step(event);
        session = next;
        actions.push(action);
    }
    actions
}

fn start() -> Action<&'static str> {
    Action::Send(Frame::new(FrameType::Start, vec![]))
}

fn move_mount(from: &str, to: &str) -> Action<&'static str> {
    Action::MoveMount {
        from: FilePath::of_text(from),
        to: FilePath::of_text(to),
    }
}

#[test]
fn a_session_without_a_root() {
    let actions = run_session(
        None,
        vec![
            Event::Done,
            Event::Done,
            Event::Frame(Frame::resize(80, 24)),
            Event::Done,
            Event::Parent,
            Event::Done,
            Event::Done,
            Event::Reaped(3 << 8),
            Event::Done,
            Event::Done,
        ],
    );
    assert_eq!(
        actions,
        vec![
            start(),
            Action::OpenPty,
            Action::ReadFrame,
            Action::Prepare { cols: 80, rows: 24 },
            Action::Fork,
            Action::Start,
            Action::Pump,
            Action::Wait,
            Action::Send(Frame::exit(3)),
            Action::Finish(Ok(())),
            Action::Rest,
        ]
    );
}

#[test]
fn a_session_moves_devpts_and_back() {
    let actions = run_session(
        Some("/mnt"),
        vec![
            Event::Done,
            Event::Done,
            Event::Frame(Frame::resize(80, 24)),
            Event::Done,
            Event::Done,
            Event::Parent,
            Event::Done,
            Event::Failed("pump"),
            Event::Failed("wait"),
            Event::Failed("mount"),
            Event::Done,
        ],
    );
    assert_eq!(
        actions[4..],
        [
            move_mount("/dev/pts", "/mnt/dev/pts"),
            Action::Fork,
            Action::Start,
            Action::Pump,
            Action::Wait,
            move_mount("/mnt/dev/pts", "/dev/pts"),
            Action::Warn("mount"),
            Action::Finish(Err("pump")),
        ]
    );
    let actions = run_session(
        Some("/mnt/"),
        vec![
            Event::Done,
            Event::Done,
            Event::Frame(Frame::resize(80, 24)),
            Event::Done,
            Event::Done,
            Event::Parent,
            Event::Done,
            Event::Done,
            Event::Reaped(9),
            Event::Done,
            Event::Failed("send"),
        ],
    );
    assert_eq!(
        actions[9..],
        [
            move_mount("/mnt/dev/pts", "/dev/pts"),
            Action::Send(Frame::exit(137)),
            Action::Finish(Err("send")),
        ]
    );
}

#[test]
fn a_session_that_goes_wrong() {
    let greeted = |event| run_session(None, vec![Event::Done, Event::Done, event]);
    assert_eq!(
        run_session(None, vec![Event::Failed("io")])[1],
        Action::Crash(Crash::NoGreeting("io"))
    );
    assert_eq!(
        run_session(None, vec![Event::Done, Event::Failed("pty")])[2],
        Action::Finish(Err("pty"))
    );
    assert_eq!(greeted(Event::Eof)[3], Action::Crash(Crash::NoSize));
    assert_eq!(
        greeted(Event::Frame(Frame::stdin(vec![])))[3],
        Action::Crash(Crash::UnexpectedFrame(FrameType::Stdin))
    );
    assert_eq!(greeted(Event::Failed("io"))[3], Action::Finish(Err("io")));

    let sized = |root, events: Vec<Event<&'static str>>| {
        let mut all = vec![
            Event::Done,
            Event::Done,
            Event::Frame(Frame::resize(80, 24)),
        ];
        all.extend(events);
        run_session(root, all).pop().unwrap()
    };
    assert_eq!(
        sized(None, vec![Event::Failed("nul")]),
        Action::Finish(Err("nul"))
    );
    assert_eq!(
        sized(Some("/mnt"), vec![Event::Done, Event::Failed("mount")]),
        Action::Finish(Err("mount"))
    );
    assert_eq!(
        sized(None, vec![Event::Done, Event::Failed("fork")]),
        Action::Finish(Err("fork"))
    );
    assert_eq!(sized(None, vec![Event::Done, Event::Child]), Action::Exec);
    assert_eq!(
        sized(
            None,
            vec![Event::Done, Event::Parent, Event::Failed("clone")]
        ),
        Action::Finish(Err("clone"))
    );
    assert_eq!(
        sized(
            None,
            vec![
                Event::Done,
                Event::Parent,
                Event::Done,
                Event::Done,
                Event::Failed("wait")
            ]
        ),
        Action::Finish(Err("wait"))
    );
}

#[test]
fn workers_are_watched_over() {
    assert_eq!(
        supervise::<&str>(Watched::Command(WaitOutcome::Running)),
        Watch::AwaitWorker
    );
    assert_eq!(
        supervise::<&str>(Watched::Command(WaitOutcome::Changed)),
        Watch::Reap
    );
    assert_eq!(
        supervise::<&str>(Watched::Command(WaitOutcome::Failed)),
        Watch::Reap
    );
    assert_eq!(
        supervise::<&str>(Watched::Worker(Ok(()))),
        Watch::LookAfterCommand
    );
    assert_eq!(supervise(Watched::Worker(Err("io"))), Watch::Crash("io"));
    assert_eq!(supervise::<&str>(Watched::NoWorkers), Watch::Reap);
}

#[test]
fn the_server_greets_first() {
    let start = Frame::new(FrameType::Start, vec![]);
    assert_eq!(check_greeting::<()>(Some(Ok(start))), Greeting::Accepted);
    assert_eq!(
        check_greeting::<()>(Some(Ok(Frame::stdout(vec![])))),
        Greeting::Refused("Expected start frame. Got: Stdout".to_string())
    );
    assert_eq!(
        check_greeting::<()>(None),
        Greeting::Refused("Unexpected EOF".to_string())
    );
    assert_eq!(check_greeting(Some(Err("io"))), Greeting::Failed("io"));
    assert_eq!(opening_size(Some((1, 2))), (1, 2));
    assert_eq!(opening_size(None), (80, 24));
}

#[test]
fn output_goes_to_its_stream() {
    let shown = |frame: Frame, exits| output_step::<()>(Progress::Frame(frame), exits);
    assert_eq!(
        shown(Frame::stdout(b"o".to_vec()), true),
        Output::Stdout(b"o".to_vec())
    );
    assert_eq!(
        shown(Frame::stderr(b"e".to_vec()), true),
        Output::Stderr(b"e".to_vec())
    );
    assert_eq!(shown(Frame::exit(-3), true), Output::Exit(-3));
    assert_eq!(
        shown(Frame::exit(3), false),
        Output::Stop(Some("Unknown frame endpoint = Exit".to_string()))
    );
    assert_eq!(
        shown(Frame::new(FrameType::Exit, vec![1, 2]), true),
        Output::Stop(Some("Malformed exit frame: 2 bytes".to_string()))
    );
    assert_eq!(
        shown(Frame::resize(1, 1), true),
        Output::Stop(Some("Unknown frame endpoint = Resize".to_string()))
    );
    assert_eq!(output_step::<()>(Progress::End, true), Output::Stop(None));
    assert_eq!(output_step::<()>(Progress::More, true), Output::More);
    assert_eq!(
        output_step(Progress::Failed("io"), true),
        Output::Failed("io")
    );
    let invalid = Error::new(ErrorKind::UnexpectedEof, "cut".to_string());
    assert_eq!(
        output_step::<()>(Progress::Invalid(invalid.clone()), true),
        Output::Invalid(invalid)
    );
}

#[test]
fn input_is_filtered_and_forwarded() {
    let mut escaped = false;
    let mut step = |bytes: &[u8]| input_step::<()>(InputRead::Data(bytes), &mut escaped, true);
    let stdin = |bytes: &[u8]| vec![Frame::stdin(bytes.to_vec())];
    assert_eq!(step(b"ls"), (stdin(b"ls"), InputNext::Continue));
    assert_eq!(step(&[0x1d]), (vec![], InputNext::Continue));
    assert_eq!(step(b"x"), (stdin(&[0x1d, b'x']), InputNext::Continue));
    assert_eq!(
        step(&[b'y', 0x1d, b'q', b'z']),
        (stdin(b"y"), InputNext::Quit)
    );
    assert_eq!(step(&[0x1d, b'q']), (vec![], InputNext::Quit));

    let mut escaped = true;
    assert_eq!(
        input_step::<()>(InputRead::Retry, &mut escaped, true),
        (vec![], InputNext::Yield)
    );
    assert_eq!(
        input_step(InputRead::Failed("io"), &mut escaped, true),
        (vec![], InputNext::Failed("io"))
    );
    assert!(escaped);
}

#[test]
fn the_end_of_stdin_lets_a_held_escape_go() {
    let end = |mut escaped: bool, tells_eof: bool| {
        let (frames, next) = input_step::<()>(InputRead::Eof, &mut escaped, tells_eof);
        assert_eq!(next, InputNext::Ended);
        assert!(!escaped);
        frames
    };
    let escape = || Frame::stdin(vec![0x1d]);
    assert_eq!(end(false, false), vec![]);
    assert_eq!(end(false, true), vec![Frame::stdin_eof()]);
    assert_eq!(end(true, false), vec![escape()]);
    assert_eq!(end(true, true), vec![escape(), Frame::stdin_eof()]);
}

#[test]
fn a_full_read_behind_a_held_escape_takes_two_frames() {
    let mut escaped = true;
    let (frames, next) = input_step::<()>(
        InputRead::Data(&vec![b'a'; MAX_PAYLOAD]),
        &mut escaped,
        true,
    );
    assert_eq!(next, InputNext::Continue);
    let mut first = vec![b'a'; MAX_PAYLOAD];
    first[0] = 0x1d;
    assert_eq!(
        frames,
        vec![Frame::stdin(first), Frame::stdin(b"a".to_vec())]
    );
    for frame in &frames {
        assert!(frame.write_to(&mut Vec::new()).is_ok());
    }
}

/// The stdin frames for a run of reads and the end of stdin behind it.
fn typed_frames(reads: &[&[u8]]) -> Vec<Frame> {
    let mut escaped = false;
    let mut sent = Vec::new();
    for read in reads {
        let (frames, _) = input_step::<()>(InputRead::Data(read), &mut escaped, true);
        sent.extend(frames);
    }
    sent.extend(input_step::<()>(InputRead::Eof, &mut escaped, true).0);
    sent
}

/// What a run of frames from the client writes to a PTY.
fn written(frames: Vec<Frame>, key: u8) -> Vec<u8> {
    let mut last = None;
    let mut bytes = Vec::new();
    for frame in frames {
        let input = match pump_client_frames::<()>(Progress::Frame(frame), true) {
            ClientRequest::Write { bytes } => Input::Bytes(bytes),
            ClientRequest::EndInput => Input::End { key },
            ClientRequest::Resize { .. } => continue,
            other => panic!("{other:?}"),
        };
        bytes.extend(type_input(input, &mut last));
    }
    bytes
}

#[test]
fn typing_reaches_the_command() {
    assert_eq!(written(typed_frames(&[b"Hi\n"]), 4), b"Hi\n\x04");
    assert_eq!(written(typed_frames(&[b"H", b"i"]), 4), b"Hi\x04\x04");
    assert_eq!(written(typed_frames(&[]), 4), b"\x04");
    assert_eq!(
        written(typed_frames(&[b"a\x1d"]), 4),
        b"a\x1d\x04\x04"
    );
    let full = vec![b'a'; MAX_PAYLOAD];
    let mut expected = vec![0x1d];
    expected.extend(&full);
    expected.extend([4, 4]);
    assert_eq!(written(typed_frames(&[&[0x1d], &full]), 4), expected);
    // Resize events in between change nothing, and behind the end it starts anew.
    assert_eq!(
        written(
            vec![
                Frame::stdin(b"x".to_vec()),
                Frame::resize(1, 1),
                Frame::stdin_eof(),
                Frame::stdin_eof(),
            ],
            4
        ),
        b"x\x04\x04\x04"
    );
}

/// Run a client over the given events, the first action included.
fn run_client(
    manners: Manners,
    events: Vec<attach::Event<&'static str>>,
) -> Vec<attach::Action<&'static str>> {
    let (mut client, first) = Client::begin(manners);
    let mut actions = vec![first];
    for event in events {
        let (next, action) = client.step(event);
        client = next;
        actions.push(action);
    }
    actions
}

const LENIENT: Manners = Manners {
    needs_terminal: false,
    tells_eof: true,
};

const STRICT: Manners = Manners {
    needs_terminal: true,
    tells_eof: false,
};

fn hello() -> attach::Event<&'static str> {
    attach::Event::Frame(Frame::new(FrameType::Start, vec![]))
}

#[test]
fn a_client_sends_its_size_before_anything_is_typed() {
    for manners in [LENIENT, STRICT] {
        assert_eq!(
            run_client(
                manners,
                vec![
                    hello(),
                    attach::Event::Done,
                    attach::Event::Size(120, 40),
                    attach::Event::Done,
                    attach::Event::Done,
                    attach::Event::Worker(WorkerEnd::Output(Ok(Some(3)))),
                    attach::Event::Done,
                ],
            ),
            vec![
                attach::Action::ReadFrame,
                attach::Action::EnterRawMode,
                attach::Action::QuerySize,
                attach::Action::Send(Frame::resize(120, 40)),
                attach::Action::StartWorkers,
                attach::Action::AwaitWorker,
                attach::Action::Finish(Ok(Some(3))),
                attach::Action::Rest,
            ]
        );
    }
}

#[test]
fn a_client_without_a_terminal() {
    let failed = || attach::Event::Failed("tty");
    assert_eq!(
        run_client(LENIENT, vec![hello(), failed(), failed()])[2..],
        [
            attach::Action::QuerySize,
            attach::Action::Send(Frame::resize(80, 24)),
        ]
    );
    assert_eq!(
        run_client(STRICT, vec![hello(), failed(), failed()])[2..],
        [attach::Action::Finish(Err("tty")), attach::Action::Rest]
    );
    assert_eq!(
        run_client(STRICT, vec![hello(), attach::Event::Done, failed()])[3],
        attach::Action::Finish(Err("tty"))
    );
}

#[test]
fn a_client_that_goes_wrong() {
    let first = |event| run_client(LENIENT, vec![event]).pop().unwrap();
    assert_eq!(
        first(attach::Event::Failed("io")),
        attach::Action::CrashFailed("io")
    );
    assert_eq!(
        first(attach::Event::Eof),
        attach::Action::CrashRefused("Unexpected EOF".to_string())
    );
    assert_eq!(
        first(attach::Event::Frame(Frame::exit(0))),
        attach::Action::CrashRefused("Expected start frame. Got: Exit".to_string())
    );
    assert_eq!(
        run_client(
            LENIENT,
            vec![
                hello(),
                attach::Event::Done,
                attach::Event::Size(1, 1),
                attach::Event::Failed("io"),
            ]
        )[4],
        attach::Action::Finish(Err("io"))
    );
}

#[test]
fn the_end_of_stdin_ends_a_client_that_cannot_tell() {
    let end = |manners| {
        run_client(
            manners,
            vec![
                hello(),
                attach::Event::Done,
                attach::Event::Size(1, 1),
                attach::Event::Done,
                attach::Event::Done,
                attach::Event::Worker(WorkerEnd::Input(Ok(false))),
            ],
        )
        .pop()
        .unwrap()
    };
    assert_eq!(end(LENIENT), attach::Action::AwaitWorker);
    assert_eq!(end(STRICT), attach::Action::Finish(Ok(None)));
}

#[test]
fn workers_end_the_session() {
    for tells_eof in [false, true] {
        let end = |worker| session_end::<&str>(worker, tells_eof);
        assert_eq!(end(WorkerEnd::Output(Ok(Some(3)))), Some(Ok(Some(3))));
        assert_eq!(end(WorkerEnd::Output(Ok(None))), Some(Ok(None)));
        assert_eq!(end(WorkerEnd::Input(Ok(true))), Some(Ok(None)));
        assert_eq!(end(WorkerEnd::Input(Err("io"))), Some(Err("io")));
        assert_eq!(end(WorkerEnd::Resize(Ok(()))), Some(Ok(None)));
        assert_eq!(end(WorkerEnd::Resize(Err("io"))), Some(Err("io")));
    }
    assert_eq!(session_end::<&str>(WorkerEnd::Input(Ok(false)), true), None);
    assert_eq!(
        session_end::<&str>(WorkerEnd::Input(Ok(false)), false),
        Some(Ok(None))
    );
}

#[test]
fn the_end_of_stdin_is_typed() {
    assert_eq!(eof_keys(4, None), vec![4]);
    assert_eq!(eof_keys(4, Some(b'\n')), vec![4]);
    assert_eq!(eof_keys(4, Some(b'x')), vec![4, 4]);
}

#[test]
fn the_commands_code_becomes_our_own() {
    for (status, code) in [(0, 0), (1 << 8, 1), (42 << 8, 42), (9, 137)] {
        let sent = Frame::exit(exit_code(status));
        match output_step::<()>(Progress::Frame(sent), true) {
            Output::Exit(received) => {
                assert_eq!(shell_exit_code::<()>(&Ok(Some(received))), code)
            }
            other => panic!("{other:?}"),
        }
    }
    assert_eq!(shell_exit_code::<()>(&Ok(None)), 0);
    assert_eq!(shell_exit_code::<()>(&Ok(Some(300))), 255);
    assert_eq!(shell_exit_code(&Err("io")), 1);
}
