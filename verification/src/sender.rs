//! The sender's logic. The plan lists every packet the sender is to emit:
//! one labeled payload per group index, in index order. The state machine
//! decides, from the outcome of each socket operation, what to do next:
//! bind first, then send the planned packets one by one, pausing between
//! them; a single failure aborts the remainder and becomes the outcome.

use vstd::prelude::*;
use crate::addr::SocketAddress;
use crate::addr::group_address;
use crate::addr::group_address_spec;
use crate::codec::format_payload;
use crate::codec::payload_spec;
use crate::config::SenderConfig;

verus! {

/// One packet to emit: its destination and its payload bytes.
pub struct Packet {
    pub dest: SocketAddress,
    pub payload: Vec<u8>,
}

/// The mathematical image of a packet.
pub struct PacketModel {
    pub dest: SocketAddress,
    pub payload: Seq<u8>,
}

impl View for Packet {
    type V = PacketModel;

    open spec fn view(&self) -> PacketModel {
        PacketModel { dest: self.dest, payload: self.payload@ }
    }
}

/// The packet that position `k` of the plan holds: destination group
/// `first + k` on the configured port, labeled with its group index.
pub open spec fn plan_packet_spec(c: SenderConfig, k: int) -> PacketModel {
    PacketModel {
        dest: SocketAddress {
            ip: group_address_spec((c.groups.first + k) as u8),
            port: c.dest_port,
        },
        payload: payload_spec((c.groups.first + k) as nat),
    }
}

/// The whole plan: one packet per group index in the configured range.
pub open spec fn plan_spec(c: SenderConfig) -> Seq<PacketModel> {
    Seq::new(c.groups.count(), |k: int| plan_packet_spec(c, k))
}

/// Builds the sender's plan.
pub fn build_plan(c: &SenderConfig) -> (r: Vec<Packet>)
    ensures
        r@.len() == plan_spec(*c).len(),
        forall|k: int| 0 <= k < r@.len() ==> (#[trigger] r@[k])@ == plan_spec(*c)[k],
{
    let mut out: Vec<Packet> = Vec::new();
    if c.groups.first > c.groups.last {
        return out;
    }
    let count: usize = (c.groups.last - c.groups.first) as usize + 1;
    let mut k: usize = 0;
    while k < count
        invariant
            count == c.groups.count(),
            c.groups.first + count - 1 <= 255,
            0 <= k <= count,
            out@.len() == k,
            forall|j: int| 0 <= j < k ==> (#[trigger] out@[j])@ == plan_spec(*c)[j],
        decreases count - k,
    {
        let index: u8 = c.groups.first + (k as u8);
        let payload = format_payload(index as u64);
        let dest = SocketAddress { ip: group_address(index), port: c.dest_port };
        out.push(Packet { dest, payload });
        k += 1;
    }
    out
}

/// Why the sender stopped without completing its plan.
#[derive(Clone, Copy, Debug, PartialEq, Eq, Structural)]
pub enum SenderError {
    /// The transmit socket could not be set up or bound.
    Bind,
    /// A transmit failed; the remaining packets were abandoned.
    Send,
}

/// Where the sender stands.
#[derive(Clone, Copy, Debug, PartialEq, Eq, Structural)]
pub enum SenderPhase {
    /// No socket yet; the next step is to bind.
    Unbound,
    /// Bound; packets up to `sent` have gone out.
    Sending,
    /// Every planned packet went out.
    Done,
    /// Aborted by the recorded failure.
    Failed(SenderError),
}

/// What the process reports back to the state machine.
#[derive(Clone, Copy, Debug, PartialEq, Eq, Structural)]
pub enum SenderEvent {
    BindOk,
    BindFailed,
    SendOk,
    SendFailed,
}

/// What the state machine asks the process to do next.
#[derive(Clone, Copy, Debug, PartialEq, Eq, Structural)]
pub enum SenderAction {
    /// Create the transmit socket and bind it to the configured address.
    Bind,
    /// Send the packet at this position of the plan, then pause the
    /// configured delay.
    Send(usize),
    /// Nothing is left to do; the phase is the outcome.
    Stop,
}

/// The sender's state: its phase and how many packets have gone out.
#[derive(Clone, Copy, Debug, PartialEq, Eq, Structural)]
pub struct SenderState {
    pub phase: SenderPhase,
    pub sent: usize,
}

/// The state every run starts from.
pub open spec fn sender_init_spec() -> SenderState {
    SenderState { phase: SenderPhase::Unbound, sent: 0 }
}

/// The fresh state of a sender run.
pub fn sender_init() -> (s: SenderState)
    ensures
        s == sender_init_spec(),
{
    SenderState { phase: SenderPhase::Unbound, sent: 0 }
}

/// The action the sender takes in state `s`.
pub open spec fn sender_action_spec(c: SenderConfig, s: SenderState) -> SenderAction {
    match s.phase {
        SenderPhase::Unbound => SenderAction::Bind,
        SenderPhase::Sending => if s.sent < plan_spec(c).len() {
            SenderAction::Send(s.sent)
        } else {
            SenderAction::Stop
        },
        SenderPhase::Done => SenderAction::Stop,
        SenderPhase::Failed(_) => SenderAction::Stop,
    }
}

/// Decides the sender's next action.
pub fn sender_action(c: &SenderConfig, s: &SenderState) -> (a: SenderAction)
    ensures
        a == sender_action_spec(*c, *s),
{
    match s.phase {
        SenderPhase::Unbound => SenderAction::Bind,
        SenderPhase::Sending => {
            let count: usize = if c.groups.first > c.groups.last {
                0
            } else {
                (c.groups.last - c.groups.first) as usize + 1
            };
            if s.sent < count {
                SenderAction::Send(s.sent)
            } else {
                SenderAction::Stop
            }
        },
        SenderPhase::Done => SenderAction::Stop,
        SenderPhase::Failed(_) => SenderAction::Stop,
    }
}

/// The state after the process reports the outcome of the current action.
pub open spec fn sender_apply_spec(c: SenderConfig, s: SenderState, e: SenderEvent) -> SenderState {
    match s.phase {
        SenderPhase::Unbound => match e {
            SenderEvent::BindOk => if plan_spec(c).len() == 0 {
                SenderState { phase: SenderPhase::Done, sent: 0 }
            } else {
                SenderState { phase: SenderPhase::Sending, sent: 0 }
            },
            SenderEvent::BindFailed => SenderState {
                phase: SenderPhase::Failed(SenderError::Bind),
                sent: 0,
            },
            _ => s,
        },
        SenderPhase::Sending => match e {
            SenderEvent::SendOk => if s.sent + 1 < plan_spec(c).len() {
                SenderState { phase: SenderPhase::Sending, sent: (s.sent + 1) as usize }
            } else {
                SenderState { phase: SenderPhase::Done, sent: (s.sent + 1) as usize }
            },
            SenderEvent::SendFailed => SenderState {
                phase: SenderPhase::Failed(SenderError::Send),
                sent: s.sent,
            },
            _ => s,
        },
        SenderPhase::Done => s,
        SenderPhase::Failed(_) => s,
    }
}

/// What always holds of a sender state reached from the start: the count
/// of sent packets never passes the plan, a completed run sent the whole
/// plan, a bind failure sent nothing, and packets go out only once bound.
pub open spec fn sender_inv(c: SenderConfig, s: SenderState) -> bool {
    &&& s.sent <= plan_spec(c).len()
    &&& s.phase == SenderPhase::Unbound ==> s.sent == 0
    &&& s.phase == SenderPhase::Sending ==> s.sent < plan_spec(c).len()
    &&& s.phase == SenderPhase::Done ==> s.sent == plan_spec(c).len()
    &&& s.phase == SenderPhase::Failed(SenderError::Bind) ==> s.sent == 0
}

/// The invariant holds at the start and is preserved by every event.
pub proof fn lemma_sender_inv(c: SenderConfig, s: SenderState, e: SenderEvent)
    requires
        sender_inv(c, s),
    ensures
        sender_inv(c, sender_init_spec()),
        sender_inv(c, sender_apply_spec(c, s, e)),
{
}

/// Advances the sender's state by the outcome of the current action.
pub fn sender_apply(c: &SenderConfig, s: SenderState, e: SenderEvent) -> (r: SenderState)
    requires
        sender_inv(*c, s),
    ensures
        r == sender_apply_spec(*c, s, e),
        sender_inv(*c, r),
{
    let ghost count = plan_spec(*c).len();
    let plan_len: usize = if c.groups.first > c.groups.last {
        0
    } else {
        (c.groups.last - c.groups.first) as usize + 1
    };
    assert(plan_len == count);
    match s.phase {
        SenderPhase::Unbound => match e {
            SenderEvent::BindOk => if plan_len == 0 {
                SenderState { phase: SenderPhase::Done, sent: 0 }
            } else {
                SenderState { phase: SenderPhase::Sending, sent: 0 }
            },
            SenderEvent::BindFailed => SenderState {
                phase: SenderPhase::Failed(SenderError::Bind),
                sent: 0,
            },
            _ => s,
        },
        SenderPhase::Sending => match e {
            SenderEvent::SendOk => if s.sent + 1 < plan_len {
                SenderState { phase: SenderPhase::Sending, sent: s.sent + 1 }
            } else {
                SenderState { phase: SenderPhase::Done, sent: s.sent + 1 }
            },
            SenderEvent::SendFailed => SenderState {
                phase: SenderPhase::Failed(SenderError::Send),
                sent: s.sent,
            },
            _ => s,
        },
        SenderPhase::Done => s,
        SenderPhase::Failed(_) => s,
    }
}

/// The state after a whole run: the events applied in order.
pub open spec fn sender_run_spec(c: SenderConfig, s: SenderState, evs: Seq<SenderEvent>) -> SenderState
    decreases evs.len(),
{
    if evs.len() == 0 {
        s
    } else {
        sender_run_spec(c, sender_apply_spec(c, s, evs[0]), evs.skip(1))
    }
}

/// The invariant holds after any run.
pub proof fn lemma_sender_run_inv(c: SenderConfig, s: SenderState, evs: Seq<SenderEvent>)
    requires
        sender_inv(c, s),
    ensures
        sender_inv(c, sender_run_spec(c, s, evs)),
    decreases evs.len(),
{
    if evs.len() > 0 {
        lemma_sender_inv(c, s, evs[0]);
        lemma_sender_run_inv(c, sender_apply_spec(c, s, evs[0]), evs.skip(1));
    }
}

/// A failed sender stays failed: no later event changes the outcome or
/// sends another packet.
pub proof fn lemma_sender_failure_final(
    c: SenderConfig,
    s: SenderState,
    evs: Seq<SenderEvent>,
    err: SenderError,
)
    requires
        s.phase == SenderPhase::Failed(err),
    ensures
        sender_run_spec(c, s, evs) == s,
    decreases evs.len(),
{
    if evs.len() > 0 {
        lemma_sender_failure_final(c, sender_apply_spec(c, s, evs[0]), evs.skip(1), err);
    }
}

/// A sender whose transmit socket fails to bind never sends a packet, and
/// the bind failure is the sole outcome of the run, whatever follows.
pub proof fn lemma_bind_failure_sends_nothing(c: SenderConfig, evs: Seq<SenderEvent>)
    requires
        evs.len() > 0,
        evs[0] == SenderEvent::BindFailed,
    ensures
        sender_run_spec(c, sender_init_spec(), evs).sent == 0,
        sender_run_spec(c, sender_init_spec(), evs).phase == SenderPhase::Failed(
            SenderError::Bind,
        ),
{
    let s1 = sender_apply_spec(c, sender_init_spec(), evs[0]);
    lemma_sender_failure_final(c, s1, evs.skip(1), SenderError::Bind);
}

/// A run in which the bind and every planned send succeed completes the
/// plan: exactly as many packets go out as the plan holds, never fewer,
/// never more.
pub proof fn lemma_complete_run_sends_plan(c: SenderConfig, evs: Seq<SenderEvent>)
    requires
        evs.len() == 1 + plan_spec(c).len(),
        evs[0] == SenderEvent::BindOk,
        forall|k: int| 1 <= k < evs.len() ==> evs[k] == SenderEvent::SendOk,
    ensures
        sender_run_spec(c, sender_init_spec(), evs).phase == SenderPhase::Done,
        sender_run_spec(c, sender_init_spec(), evs).sent == plan_spec(c).len(),
{
    let s1 = sender_apply_spec(c, sender_init_spec(), evs[0]);
    lemma_sends_complete(c, s1, evs.skip(1));
}

/// From a bound state, as many successful sends as the plan still owes
/// finish the run with the whole plan sent.
proof fn lemma_sends_complete(c: SenderConfig, s: SenderState, evs: Seq<SenderEvent>)
    requires
        sender_inv(c, s),
        s.phase == SenderPhase::Sending || s.phase == SenderPhase::Done,
        evs.len() == plan_spec(c).len() - s.sent,
        forall|k: int| 0 <= k < evs.len() ==> evs[k] == SenderEvent::SendOk,
    ensures
        sender_run_spec(c, s, evs).phase == SenderPhase::Done,
        sender_run_spec(c, s, evs).sent == plan_spec(c).len(),
    decreases evs.len(),
{
    if evs.len() > 0 {
        let s1 = sender_apply_spec(c, s, evs[0]);
        lemma_sends_complete(c, s1, evs.skip(1));
    }
}

} // verus!
