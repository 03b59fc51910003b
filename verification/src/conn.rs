//! The suspend-point state machines of the two async I/O primitives and the
//! echo handler built on them.
//!
//! Each non-blocking attempt is reduced to a plain event; the functions here
//! decide, exactly as the runtime must, whether the attempt completed, must
//! suspend and register interest, or is fatal.  The host performs the actual
//! system calls and feeds the events in.

use vstd::prelude::*;
use crate::selector::{apply_ops, IoOps};

verus! {

/// What one non-blocking buffered line read reported.
pub enum ReadEvent {
    /// Zero bytes: the peer closed the connection in an orderly way.
    Closed,
    /// A line was read (terminator included when the peer sent one).
    Data(String),
    /// Nothing to read yet: the normal suspend trigger, not an error.
    WouldBlock,
    /// Any other I/O error; masked as a peer close so one misbehaving
    /// connection never takes the server down.
    Failed,
}

/// The reader's decision for one resumption.
pub enum ReadStep {
    /// Complete with the given result; `None` tells the caller to tear the
    /// connection down.
    Done(Option<String>),
    /// Register read interest for this descriptor with a continuation that
    /// resumes the waiting task cell, and stay pending.
    Suspend,
}

/// The reader's decision as a function of the event.
pub open spec fn read_line_outcome(ev: ReadEvent) -> ReadStep {
    match ev {
        ReadEvent::Closed => ReadStep::Done(None),
        ReadEvent::Data(s) => ReadStep::Done(Some(s)),
        ReadEvent::WouldBlock => ReadStep::Suspend,
        ReadEvent::Failed => ReadStep::Done(None),
    }
}

/// One resumption of the `read_line` suspend point: completion with the line,
/// completion with "no line" on close or on any masked I/O error, or suspend
/// on "would block".
pub fn read_line_step(ev: ReadEvent) -> (r: ReadStep)
    ensures
        r == read_line_outcome(ev),
{
    match ev {
        ReadEvent::Closed => ReadStep::Done(None),
        ReadEvent::Data(s) => ReadStep::Done(Some(s)),
        ReadEvent::WouldBlock => ReadStep::Suspend,
        ReadEvent::Failed => ReadStep::Done(None),
    }
}

/// What one non-blocking accept reported.  `C` carries the accepted
/// connection (streams and peer address); the model never looks inside it.
pub enum AcceptEvent<C> {
    /// A connection was accepted.
    Accepted(C),
    /// No connection pending yet: the normal suspend trigger.
    WouldBlock,
    /// Any other listener error: fatal for the whole process.
    Failed,
}

/// The listener's decision for one resumption.
pub enum AcceptStep<C> {
    /// Complete with the accepted connection.
    Done(C),
    /// Register read interest for the listener's descriptor and report "not
    /// ready".
    Suspend,
    /// Abort the process: listener failures other than "would block" are not
    /// part of the recoverable error taxonomy.
    Fatal,
}

/// The listener's decision as a function of the event.
pub open spec fn accept_outcome<C>(ev: AcceptEvent<C>) -> AcceptStep<C> {
    match ev {
        AcceptEvent::Accepted(c) => AcceptStep::Done(c),
        AcceptEvent::WouldBlock => AcceptStep::Suspend,
        AcceptEvent::Failed => AcceptStep::Fatal,
    }
}

/// One resumption of the `accept` suspend point.
pub fn accept_step<C>(ev: AcceptEvent<C>) -> (r: AcceptStep<C>)
    ensures
        r == accept_outcome(ev),
{
    match ev {
        AcceptEvent::Accepted(c) => AcceptStep::Done(c),
        AcceptEvent::WouldBlock => AcceptStep::Suspend,
        AcceptEvent::Failed => AcceptStep::Fatal,
    }
}

/// The echo handler's decision after one completed read.
pub enum EchoStep {
    /// Write these very bytes back on the connection's writer, flush, and
    /// await the next line.
    Write(String),
    /// The reader reported "no line": finish this connection's task cell.
    Finish,
}

/// The echo handler's decision as a function of the completed read.
pub open spec fn echo_outcome(line: Option<String>) -> EchoStep {
    match line {
        Some(l) => EchoStep::Write(l),
        None => EchoStep::Finish,
    }
}

/// One turn of the echo handler: a received line is written back unchanged,
/// "no line" ends the task.
pub fn echo_step(line: Option<String>) -> (r: EchoStep)
    ensures
        r == echo_outcome(line),
{
    match line {
        Some(l) => EchoStep::Write(l),
        None => EchoStep::Finish,
    }
}

/// For every line the peer sends, the server writes back exactly that line,
/// byte for byte: the read completes with the line unchanged, and the echo
/// turn writes the very same characters.
pub proof fn lemma_echo_exact(l: String)
    ensures
        read_line_outcome(ReadEvent::Data(l)) == ReadStep::Done(Some(l)),
        echo_outcome(Some(l)) == EchoStep::Write(l),
{
}

/// Connections cannot cross-talk: the echo handler's write action is a
/// function of that connection's own line alone, so however many connections
/// interleave on the one worker thread, each one is answered with exactly
/// the line it sent.
pub proof fn lemma_echo_independent(lines: Seq<String>)
    ensures
        forall|i: int|
            0 <= i < lines.len() ==> echo_outcome(Some(#[trigger] lines[i])) == EchoStep::Write(
                lines[i],
            ),
{
}

/// A connection that sends zero bytes and closes is torn down cleanly: the
/// read completes with "no line", the handler finishes the task cell, and
/// once the reader's unregister command is drained the descriptor has no
/// registration left — nothing leaks.
pub proof fn lemma_close_frees_connection<W>(m: Map<int, W>, ops: Seq<IoOps<W>>, fd: i32)
    ensures
        read_line_outcome(ReadEvent::Closed) == ReadStep::Done(None),
        echo_outcome(None) == EchoStep::Finish,
        !apply_ops(m, ops.push(IoOps::Remove(fd))).contains_key(fd as int),
{
    crate::selector::lemma_unregister_seen_next_wake(m, ops, fd);
}

} // verus!
