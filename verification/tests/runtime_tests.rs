use echo_reactor::conn::{
    accept_step, echo_step, read_line_step, AcceptEvent, AcceptStep, EchoStep, ReadEvent, ReadStep,
};
use echo_reactor::hello::Hello;
use echo_reactor::runq::{after_resume, ResumeAction, RunQueue, TaskPoll};
use echo_reactor::selector::{arm_step, ArmEvent, ArmStep, IOSelector, OsAction};

/// One connection, echoing "ping" then "pong", then closing: the scenario a
/// client sees, driven against the runtime's state machines.  Afterwards the
/// registration table holds no entry for the descriptor.
#[test]
fn test_ping_pong_session() {
    let mut sel: IOSelector<u64> = IOSelector::new();
    let mut runq: RunQueue<u64> = RunQueue::new(1024);
    let task: u64 = 7;
    let fd: i32 = 5;

    for expected in ["ping\n", "pong\n"] {
        // the connection's first read attempt would block: suspend and
        // register read interest with the task's continuation
        match read_line_step(ReadEvent::WouldBlock) {
            ReadStep::Suspend => sel.register(1, fd, task),
            _ => panic!("a would-block read must suspend"),
        }
        assert_eq!(sel.pending_commands(), 1);
        // the reactor wakes on its event descriptor and drains the queue
        let acts = sel.handle_commands();
        assert_eq!(acts, vec![OsAction::Arm(1, fd)]);
        assert!(sel.table_contains(fd));
        // the line arrives; the reactor dispatches the one-shot registration
        let woken = sel.handle_ready(fd);
        assert_eq!(woken, task);
        assert!(!sel.table_contains(fd));
        runq.send(woken);
        // the executor resumes the task; the read now completes
        let resumed = runq.recv().unwrap();
        assert_eq!(resumed, task);
        let line = match read_line_step(ReadEvent::Data(expected.to_string())) {
            ReadStep::Done(Some(line)) => line,
            _ => panic!("data must complete the read"),
        };
        // the handler writes back exactly the bytes received
        match echo_step(Some(line)) {
            EchoStep::Write(out) => assert_eq!(out, expected),
            EchoStep::Finish => panic!("a received line is echoed"),
        }
    }

    // the client closes: zero bytes end the task and the reader's teardown
    // unregisters the descriptor
    match read_line_step(ReadEvent::Closed) {
        ReadStep::Done(None) => {}
        _ => panic!("a close completes with no line"),
    }
    match echo_step(None) {
        EchoStep::Finish => {}
        EchoStep::Write(_) => panic!("a closed connection gets no write"),
    }
    sel.unregister(fd);
    let acts = sel.handle_commands();
    assert_eq!(acts, vec![OsAction::Disarm(fd)]);
    assert!(!sel.table_contains(fd));
    assert_eq!(sel.table_len(), 0);
    assert_eq!(sel.pending_commands(), 0);
}

/// Fifty connections interleaved on one run queue each get back exactly the
/// line they sent: no cross-talk between task cells.
#[test]
fn test_fifty_connections_no_crosstalk() {
    let mut sel: IOSelector<u64> = IOSelector::new();
    let mut runq: RunQueue<u64> = RunQueue::new(1024);
    for id in 0..50u64 {
        sel.register(1, 100 + id as i32, id);
    }
    assert_eq!(sel.pending_commands(), 50);
    let acts = sel.handle_commands();
    assert_eq!(acts.len(), 50);
    assert_eq!(sel.table_len(), 50);

    // every descriptor becomes readable; dispatch enqueues each task once
    for id in 0..50u64 {
        let woken = sel.handle_ready(100 + id as i32);
        runq.send(woken);
    }
    assert_eq!(sel.table_len(), 0);
    assert_eq!(runq.len(), 50);

    // the single worker drains the queue in order; each task echoes its own
    // connection's line
    let mut served: u64 = 0;
    while let Some(task) = runq.recv() {
        assert_eq!(task, served);
        served += 1;
        let line = format!("client {} says hi\n", task);
        let got = match read_line_step(ReadEvent::Data(line.clone())) {
            ReadStep::Done(Some(l)) => l,
            _ => panic!("data must complete the read"),
        };
        match echo_step(Some(got)) {
            EchoStep::Write(out) => assert_eq!(out, line),
            EchoStep::Finish => panic!("a received line is echoed"),
        }
    }
    assert_eq!(served, 50);
}

/// After a one-shot registration fires, no later drain dispatches it again
/// until a new suspend point re-registers the descriptor; the table size is
/// stable in between.
#[test]
fn test_one_shot_not_redelivered() {
    let mut sel: IOSelector<u64> = IOSelector::new();
    let fd: i32 = 9;
    let other: i32 = 10;
    sel.register(1, fd, 1);
    sel.register(1, other, 2);
    sel.handle_commands();
    assert_eq!(sel.table_len(), 2);

    // fd fires; its registration is consumed
    assert_eq!(sel.handle_ready(fd), 1);
    assert!(!sel.table_contains(fd));
    let len_after_fire = sel.table_len();
    assert_eq!(len_after_fire, 1);

    // unrelated traffic does not resurrect it
    sel.register(1, 11, 3);
    sel.unregister(12);
    sel.handle_commands();
    assert!(!sel.table_contains(fd));
    assert_eq!(sel.table_len(), 2);

    // only an explicit re-register arms it again
    sel.register(1, fd, 1);
    sel.handle_commands();
    assert!(sel.table_contains(fd));
}

/// A command submitted while the reactor sits in its blocking wait is
/// applied on the very next wake, both for register and for unregister.
#[test]
fn test_command_seen_on_next_wake() {
    let mut sel: IOSelector<u64> = IOSelector::new();
    // worker thread queues a registration; the reactor is "blocked"
    sel.register(1, 33, 4);
    assert_eq!(sel.pending_commands(), 1);
    assert!(!sel.table_contains(33));
    // the wake event fires: the very next drain shows the registration
    sel.handle_commands();
    assert!(sel.table_contains(33));
    // same for unregister
    sel.unregister(33);
    assert!(sel.table_contains(33));
    sel.handle_commands();
    assert!(!sel.table_contains(33));
}

/// The pending batch is checked against the one-outstanding-registration
/// protocol: re-registering a descriptor that still holds a registration is
/// a caller bug, while register-after-unregister in one batch is fine.
#[test]
fn test_pending_admissible() {
    let mut sel: IOSelector<u64> = IOSelector::new();
    sel.register(1, 20, 5);
    assert!(sel.pending_admissible());
    sel.handle_commands();
    // a second registration while one is outstanding violates the protocol
    sel.register(1, 20, 6);
    assert!(!sel.pending_admissible());
    // unregister first, then register again: applied in order, admissible
    let mut sel: IOSelector<u64> = IOSelector::new();
    sel.register(1, 21, 7);
    sel.unregister(21);
    sel.register(1, 21, 8);
    assert!(sel.pending_admissible());
    let acts = sel.handle_commands();
    assert_eq!(acts.len(), 3);
    assert!(sel.table_contains(21));
}

/// Commands are applied strictly in submission order: a register followed by
/// an unregister of the same descriptor leaves it unregistered, and the
/// OS-side actions come back in the same order.
#[test]
fn test_commands_in_submission_order() {
    let mut sel: IOSelector<u64> = IOSelector::new();
    sel.register(1, 40, 8);
    sel.unregister(40);
    sel.register(1, 41, 9);
    let acts = sel.handle_commands();
    assert_eq!(
        acts,
        vec![OsAction::Arm(1, 40), OsAction::Disarm(40), OsAction::Arm(1, 41)]
    );
    assert!(!sel.table_contains(40));
    assert!(sel.table_contains(41));
}

/// The run queue is first-in first-out and reports its length.
#[test]
fn test_run_queue_fifo() {
    let mut q: RunQueue<u64> = RunQueue::new(8);
    assert_eq!(q.len(), 0);
    assert_eq!(q.recv(), None);
    q.send(3);
    q.send(1);
    q.send(2);
    assert_eq!(q.len(), 3);
    assert_eq!(q.recv(), Some(3));
    assert_eq!(q.recv(), Some(1));
    assert_eq!(q.recv(), Some(2));
    assert_eq!(q.recv(), None);
}

/// The executor's per-cell decision: a pending cell waits for its readiness
/// callback, a finished cell is dropped.  Neither outcome stops the drive
/// loop, which ends only when the queue is permanently closed.
#[test]
fn test_executor_decision() {
    assert_eq!(after_resume(TaskPoll::Pending), ResumeAction::AwaitReadiness);
    assert_eq!(after_resume(TaskPoll::Ready), ResumeAction::Discard);
}

/// Arming a descriptor in the OS set: success stands, a descriptor the OS
/// already knows is re-armed in place, anything else is fatal.
#[test]
fn test_arm_decision() {
    assert!(matches!(arm_step(ArmEvent::Added), ArmStep::Armed));
    assert!(matches!(arm_step(ArmEvent::AlreadyPresent), ArmStep::Rearm));
    assert!(matches!(arm_step(ArmEvent::Failed), ArmStep::Fatal));
}

/// The accept suspend point: completion, suspension, and the fatal case.
#[test]
fn test_accept_step_cases() {
    match accept_step(AcceptEvent::Accepted(42u32)) {
        AcceptStep::Done(c) => assert_eq!(c, 42),
        _ => panic!("an accepted connection completes the suspend point"),
    }
    assert!(matches!(
        accept_step::<u32>(AcceptEvent::WouldBlock),
        AcceptStep::Suspend
    ));
    assert!(matches!(
        accept_step::<u32>(AcceptEvent::Failed),
        AcceptStep::Fatal
    ));
}

/// Read errors other than would-block are masked as a peer close.
#[test]
fn test_read_error_masked_as_close() {
    assert!(matches!(
        read_line_step(ReadEvent::Failed),
        ReadStep::Done(None)
    ));
}

/// The greeting computation resumes from where it left off and finishes on
/// the third resumption.
#[test]
fn test_hello_phases() {
    let mut hello = Hello::new();
    assert_eq!(hello.poll_step(), Some("Hello, "));
    assert_eq!(hello.poll_step(), Some("World!"));
    assert_eq!(hello.poll_step(), None);
    assert_eq!(hello.poll_step(), None);
}

/// Driving the greeting through the run queue the way the executor does:
/// each pending resumption wakes itself and is re-enqueued; the finished
/// cell is dropped and the loop runs on until the queue has drained.
#[test]
fn test_hello_on_run_queue() {
    let mut runq: RunQueue<u64> = RunQueue::new(16);
    let mut hello = Hello::new();
    let mut printed: Vec<&'static str> = Vec::new();
    let mut resumptions: u64 = 0;
    runq.send(0);
    while let Some(task) = runq.recv() {
        resumptions += 1;
        let poll = match hello.poll_step() {
            Some(text) => {
                printed.push(text);
                // the computation woke itself: re-enqueue the task cell
                runq.send(task);
                TaskPoll::Pending
            }
            None => TaskPoll::Ready,
        };
        match after_resume(poll) {
            ResumeAction::AwaitReadiness => {
                // nothing more here: the wake above already re-enqueued it
            }
            ResumeAction::Discard => {
                // the cell is dropped; the loop keeps draining the queue
            }
        }
    }
    assert_eq!(printed, vec!["Hello, ", "World!"]);
    // two pending resumptions, then the completing third; the loop ended
    // because the queue drained, not because a task finished
    assert_eq!(resumptions, 3);
    assert_eq!(runq.len(), 0);
}
