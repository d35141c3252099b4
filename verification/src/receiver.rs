//! The receiver's logic as a state machine. The process binds the socket,
//! joins the configured groups, and then feeds every observation — a
//! datagram, a read timeout, a socket failure, or the stop request — into
//! the step function, which decides whether to record the payload, keep
//! polling, finish, or fail. A payload that is not well-formed text is the
//! receiver's single declared failure.

use vstd::prelude::*;
use crate::addr::SocketAddress;
use crate::config::ReceiverConfig;
use crate::utf8::is_utf8;
use crate::utf8::is_valid_utf8;

verus! {

/// Why a receiver task failed.
#[derive(Clone, Copy, Debug, PartialEq, Eq, Structural)]
pub enum ReceiverError {
    /// A datagram's payload was not well-formed text.
    Decode,
    /// The socket reported an error other than a read timeout.
    Socket,
}

/// Where the receiver stands.
#[derive(Clone, Copy, Debug, PartialEq, Eq, Structural)]
pub enum ReceiverStatus {
    /// Still polling for datagrams.
    Running,
    /// Stopped on request; the task's outcome is success.
    Finished,
    /// Stopped on the recorded failure.
    Failed(ReceiverError),
}

/// What the process observed in one receive cycle.
pub enum ReceiverEvent {
    /// The stop flag was clear when the loop came around.
    Stop,
    /// The read timed out with nothing to deliver; not an error.
    Timeout,
    /// A datagram arrived with this payload from this source.
    Datagram(Vec<u8>, SocketAddress),
    /// The socket failed in some way other than a timeout.
    SocketError,
}

/// The mathematical image of an observation.
pub enum ReceiverEventModel {
    Stop,
    Timeout,
    Datagram(Seq<u8>, SocketAddress),
    SocketError,
}

impl View for ReceiverEvent {
    type V = ReceiverEventModel;

    open spec fn view(&self) -> ReceiverEventModel {
        match self {
            ReceiverEvent::Stop => ReceiverEventModel::Stop,
            ReceiverEvent::Timeout => ReceiverEventModel::Timeout,
            ReceiverEvent::Datagram(p, s) => ReceiverEventModel::Datagram(p@, *s),
            ReceiverEvent::SocketError => ReceiverEventModel::SocketError,
        }
    }
}

/// One recorded datagram: its payload, known to be well-formed text, and
/// the sender's address.
pub struct ReceivedPacket {
    pub payload: Vec<u8>,
    pub source: SocketAddress,
}

/// The mathematical image of a recorded datagram.
pub struct ReceivedModel {
    pub payload: Seq<u8>,
    pub source: SocketAddress,
}

impl View for ReceivedPacket {
    type V = ReceivedModel;

    open spec fn view(&self) -> ReceivedModel {
        ReceivedModel { payload: self.payload@, source: self.source }
    }
}

/// A receiver task's state: its configuration, everything recorded so
/// far in arrival order, and its status.
pub struct ReceiverState {
    pub config: ReceiverConfig,
    pub received: Vec<ReceivedPacket>,
    pub status: ReceiverStatus,
}

/// The mathematical image of a receiver's state.
pub struct ReceiverModel {
    pub received: Seq<ReceivedModel>,
    pub status: ReceiverStatus,
}

impl View for ReceiverState {
    type V = ReceiverModel;

    open spec fn view(&self) -> ReceiverModel {
        ReceiverModel {
            received: Seq::new(
                self.received@.len(),
                |k: int| self.received@[k]@,
            ),
            status: self.status,
        }
    }
}

/// The model every receiver run starts from.
pub open spec fn receiver_init_spec() -> ReceiverModel {
    ReceiverModel { received: Seq::empty(), status: ReceiverStatus::Running }
}

/// The model after one observation: the stop request finishes the task, a
/// timeout changes nothing, a socket failure fails the task, and a
/// datagram is recorded when its payload is well-formed text and fails
/// the task when it is not. A task that is no longer running ignores
/// every further observation.
pub open spec fn receiver_step_spec(m: ReceiverModel, e: ReceiverEventModel) -> ReceiverModel {
    if m.status != ReceiverStatus::Running {
        m
    } else {
        match e {
            ReceiverEventModel::Stop => ReceiverModel {
                received: m.received,
                status: ReceiverStatus::Finished,
            },
            ReceiverEventModel::Timeout => m,
            ReceiverEventModel::SocketError => ReceiverModel {
                received: m.received,
                status: ReceiverStatus::Failed(ReceiverError::Socket),
            },
            ReceiverEventModel::Datagram(p, src) => if is_utf8(p) {
                ReceiverModel {
                    received: m.received.push(ReceivedModel { payload: p, source: src }),
                    status: ReceiverStatus::Running,
                }
            } else {
                ReceiverModel {
                    received: m.received,
                    status: ReceiverStatus::Failed(ReceiverError::Decode),
                }
            },
        }
    }
}

impl ReceiverState {
    /// Starts a receiver task: nothing received, still running.
    pub fn init(config: ReceiverConfig) -> (s: ReceiverState)
        ensures
            s@ == receiver_init_spec(),
            s.config == config,
    {
        let s = ReceiverState { config, received: Vec::new(), status: ReceiverStatus::Running };
        proof {
            assert(s@.received =~= Seq::<ReceivedModel>::empty());
        }
        s
    }

    /// Advances the receiver by one observation.
    pub fn step(&mut self, event: ReceiverEvent)
        ensures
            final(self)@ == receiver_step_spec(old(self)@, event@),
            final(self).config == old(self).config,
    {
        if !matches!(self.status, ReceiverStatus::Running) {
            return;
        }
        match event {
            ReceiverEvent::Stop => {
                self.status = ReceiverStatus::Finished;
            },
            ReceiverEvent::Timeout => {},
            ReceiverEvent::SocketError => {
                self.status = ReceiverStatus::Failed(ReceiverError::Socket);
            },
            ReceiverEvent::Datagram(payload, source) => {
                if is_valid_utf8(payload.as_slice()) {
                    let ghost before = self@.received;
                    let ghost p = payload@;
                    let ghost src = source;
                    self.received.push(ReceivedPacket { payload, source });
                    proof {
                        assert(self@.received =~= before.push(
                            ReceivedModel { payload: p, source: src },
                        ));
                    }
                } else {
                    self.status = ReceiverStatus::Failed(ReceiverError::Decode);
                }
            },
        }
    }
}

} // verus!
