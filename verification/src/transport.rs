//! The transports' decision logic. The channels themselves (pipes,
//! sockets) live with the caller; here stand the rules they follow: line
//! framing for the pipe transport, and the writer-slot lifecycle of the
//! socket transport, where at most one peer is tracked at a time.

use vstd::prelude::*;

verus! {

/// Whether a peer's writer is currently tracked.
#[derive(Clone, Copy, Debug, PartialEq, Eq, Structural)]
pub enum PeerState {
    Absent,
    Present,
}

/// What the socket read loop observes.
#[derive(Debug)]
pub enum PeerEvent {
    /// A new connection was accepted; its writer supersedes any tracked one.
    Connected,
    /// A text frame arrived.
    TextFrame(String),
    /// The peer closed the connection.
    CloseFrame,
    /// Reading failed fatally for this connection.
    ReadError,
    /// Any other frame; it is skipped.
    OtherFrame,
}

/// What the loop must do next: hand a message on, and whether to stop
/// reading this connection.
#[derive(Debug)]
pub struct PeerStep {
    pub state: PeerState,
    pub deliver: Option<String>,
    pub stop_reading: bool,
}

impl PeerState {
    /// A new connection always leaves a peer tracked, superseding any
    /// earlier one.
    pub fn on_connect(self) -> (s: PeerState)
        ensures
            s == PeerState::Present,
    {
        PeerState::Present
    }

    /// One observed event: text is delivered and reading goes on; close
    /// and error clear the tracked writer and end this connection's read
    /// loop; anything else is skipped.
    pub fn on_event(self, event: PeerEvent) -> (step: PeerStep)
        ensures
            match event {
                PeerEvent::Connected => step.state == PeerState::Present && step.deliver is None
                    && !step.stop_reading,
                PeerEvent::TextFrame(t) => step.state == self && (step.deliver matches Some(d)
                    && d@ == t@) && !step.stop_reading,
                PeerEvent::CloseFrame => step.state == PeerState::Absent && step.deliver is None
                    && step.stop_reading,
                PeerEvent::ReadError => step.state == PeerState::Absent && step.deliver is None
                    && step.stop_reading,
                PeerEvent::OtherFrame => step.state == self && step.deliver is None
                    && !step.stop_reading,
            },
    {
        match event {
            PeerEvent::Connected => PeerStep {
                state: PeerState::Present,
                deliver: None,
                stop_reading: false,
            },
            PeerEvent::TextFrame(t) => PeerStep { state: self, deliver: Some(t), stop_reading: false },
            PeerEvent::CloseFrame => PeerStep {
                state: PeerState::Absent,
                deliver: None,
                stop_reading: true,
            },
            PeerEvent::ReadError => PeerStep {
                state: PeerState::Absent,
                deliver: None,
                stop_reading: true,
            },
            PeerEvent::OtherFrame => PeerStep { state: self, deliver: None, stop_reading: false },
        }
    }

    /// Whether a response may be written now: only to a tracked peer, and
    /// never an empty one. With no peer the write is silently skipped.
    pub fn send_decision(self, response: &str) -> (b: bool)
        ensures
            b == (self == PeerState::Present && response@.len() > 0),
    {
        match self {
            PeerState::Present => response.unicode_len() > 0,
            PeerState::Absent => false,
        }
    }
}

/// Whether the pipe transport writes a response at all: empty responses
/// are skipped.
pub fn pipe_should_send(response: &str) -> (b: bool)
    ensures
        b == (response@.len() > 0),
{
    response.unicode_len() > 0
}

/// A response as one line on the pipe: the text and the line break.
pub fn frame_line(response: String) -> (r: String)
    ensures
        r@ == response@ + "\n"@,
{
    response.concat("\n")
}

} // verus!
