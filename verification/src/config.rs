//! The scenario's configuration: every address, port, group range, count
//! and delay that the tasks use, as named fields with a well-formedness
//! invariant, and the fixed values of the demonstration run.

use vstd::prelude::*;
use crate::addr::Ipv4Address;
use crate::addr::group_address_spec;
use crate::addr::group_address;

verus! {

/// A contiguous range of multicast group indices, `first..=last`.
/// The range is empty when `first > last`.
#[derive(Clone, Copy, Debug, PartialEq, Eq, Structural)]
pub struct GroupRange {
    pub first: u8,
    pub last: u8,
}

impl GroupRange {
    /// The range holds the group index `i`.
    pub open spec fn contains(self, i: u8) -> bool {
        self.first <= i <= self.last
    }

    /// The range holds no group index.
    pub open spec fn is_empty(self) -> bool {
        self.first > self.last
    }

    /// How many group indices the range holds.
    pub open spec fn count(self) -> nat {
        if self.first > self.last {
            0
        } else {
            (self.last - self.first + 1) as nat
        }
    }

    /// The range holds the group whose multicast address is `a`.
    pub open spec fn contains_address(self, a: Ipv4Address) -> bool {
        exists|i: u8| self.contains(i) && a == group_address_spec(i)
    }

    /// Decides membership of a group index.
    pub fn contains_index_exec(&self, i: u8) -> (r: bool)
        ensures
            r == self.contains(i),
    {
        self.first <= i && i <= self.last
    }

    /// Decides whether `a` is the address of a group in the range.
    pub fn contains_address_exec(&self, a: Ipv4Address) -> (r: bool)
        ensures
            r == self.contains_address(a),
    {
        let r = a.octet0 == 239 && a.octet1 == 0 && a.octet2 == 0 && self.first <= a.octet3
            && a.octet3 <= self.last;
        proof {
            if r {
                assert(self.contains(a.octet3) && a == group_address_spec(a.octet3));
            }
            if self.contains_address(a) {
                let i = choose|i: u8| self.contains(i) && a == group_address_spec(i);
                assert(a.octet3 == i);
            }
        }
        r
    }

    /// Lists the addresses of the groups in the range, in index order.
    pub fn addresses(&self) -> (r: Vec<Ipv4Address>)
        ensures
            r@.len() == self.count(),
            forall|k: int|
                0 <= k < r@.len() ==> r@[k] == group_address_spec((self.first + k) as u8),
            forall|k: int| 0 <= k < r@.len() ==> (#[trigger] r@[k]).is_multicast(),
    {
        let mut out: Vec<Ipv4Address> = Vec::new();
        if self.first > self.last {
            return out;
        }
        let count: usize = (self.last - self.first) as usize + 1;
        let mut k: usize = 0;
        while k < count
            invariant
                count == self.count(),
                self.first + count - 1 <= 255,
                0 <= k <= count,
                out@.len() == k,
                forall|j: int|
                    0 <= j < k ==> out@[j] == group_address_spec((self.first + j) as u8),
                forall|j: int| 0 <= j < k ==> (#[trigger] out@[j]).is_multicast(),
            decreases count - k,
        {
            out.push(group_address(self.first + (k as u8)));
            k += 1;
        }
        out
    }
}

/// What one receiver task is to do: where to bind, which groups to join
/// through which interface, and how its socket is configured.
#[derive(Clone, Copy, Debug, PartialEq, Eq, Structural)]
pub struct ReceiverConfig {
    /// Local address the receive socket binds to (the wildcard address).
    pub bind_ip: Ipv4Address,
    /// Local UDP port the receive socket binds to.
    pub port: u16,
    /// Interface address used for every group join.
    pub join_interface: Ipv4Address,
    /// Group indices to join; may be empty for an inert receiver.
    pub groups: GroupRange,
    /// Read timeout, bounding how late a stop request is noticed.
    pub read_timeout_ms: u64,
    /// Address reuse, so that repeated runs can bind the same port.
    pub reuse_address: bool,
    /// Whether to receive traffic of groups joined by other sockets.
    pub multicast_all: bool,
}

impl ReceiverConfig {
    /// A receiver configuration is well formed when it binds a real port,
    /// polls with a positive timeout, enables address reuse and does not
    /// listen beyond its own group memberships.
    pub open spec fn wf(self) -> bool {
        &&& self.port >= 1
        &&& self.read_timeout_ms >= 1
        &&& self.reuse_address
        &&& !self.multicast_all
    }
}

/// What the sender task is to do: where to bind, which groups to address,
/// and the pacing of its packets.
#[derive(Clone, Copy, Debug, PartialEq, Eq, Structural)]
pub struct SenderConfig {
    /// Local address the transmit socket binds to.
    pub bind_ip: Ipv4Address,
    /// Local port the transmit socket binds to; 0 lets the system pick.
    pub bind_port: u16,
    /// Group indices addressed, one packet each, in index order.
    pub groups: GroupRange,
    /// Destination UDP port of every packet.
    pub dest_port: u16,
    /// Pause between consecutive packets.
    pub delay_ms: u64,
}

impl SenderConfig {
    /// A sender configuration is well formed when it addresses a real
    /// port and paces its packets.
    pub open spec fn wf(self) -> bool {
        &&& self.dest_port >= 1
        &&& self.delay_ms >= 1
    }
}

/// The whole scenario: two receivers, one sender, and the orchestrator's
/// warm-up and drain intervals.
#[derive(Clone, Copy, Debug, PartialEq, Eq, Structural)]
pub struct ScenarioConfig {
    pub receiver1: ReceiverConfig,
    pub receiver2: ReceiverConfig,
    pub sender: SenderConfig,
    /// Pause between spawning the receivers and running the sender.
    pub warmup_ms: u64,
    /// Pause between the last send and the stop request.
    pub drain_ms: u64,
}

impl ScenarioConfig {
    pub open spec fn wf(self) -> bool {
        &&& self.receiver1.wf()
        &&& self.receiver2.wf()
        &&& self.sender.wf()
        &&& self.warmup_ms >= 1
        &&& self.drain_ms >= 1
    }
}

/// The fixed values of the demonstration run.
pub open spec fn default_scenario_spec() -> ScenarioConfig {
    ScenarioConfig {
        receiver1: ReceiverConfig {
            bind_ip: Ipv4Address { octet0: 0, octet1: 0, octet2: 0, octet3: 0 },
            port: 12345,
            join_interface: Ipv4Address { octet0: 127, octet1: 0, octet2: 123, octet3: 1 },
            groups: GroupRange { first: 1, last: 5 },
            read_timeout_ms: 50,
            reuse_address: true,
            multicast_all: false,
        },
        receiver2: ReceiverConfig {
            bind_ip: Ipv4Address { octet0: 0, octet1: 0, octet2: 0, octet3: 0 },
            port: 12345,
            join_interface: Ipv4Address { octet0: 127, octet1: 0, octet2: 123, octet3: 1 },
            groups: GroupRange { first: 3, last: 7 },
            read_timeout_ms: 50,
            reuse_address: true,
            multicast_all: false,
        },
        sender: SenderConfig {
            bind_ip: Ipv4Address { octet0: 127, octet1: 0, octet2: 123, octet3: 2 },
            bind_port: 0,
            groups: GroupRange { first: 1, last: 10 },
            dest_port: 12345,
            delay_ms: 200,
        },
        warmup_ms: 500,
        drain_ms: 500,
    }
}

/// Builds the configuration of the demonstration run: receiver 1 joins
/// groups 1 through 5, receiver 2 joins groups 3 through 7, and the sender
/// addresses groups 1 through 10, all on one shared port.
pub fn default_scenario() -> (c: ScenarioConfig)
    ensures
        c == default_scenario_spec(),
        c.wf(),
{
    ScenarioConfig {
        receiver1: ReceiverConfig {
            bind_ip: Ipv4Address { octet0: 0, octet1: 0, octet2: 0, octet3: 0 },
            port: 12345,
            join_interface: Ipv4Address { octet0: 127, octet1: 0, octet2: 123, octet3: 1 },
            groups: GroupRange { first: 1, last: 5 },
            read_timeout_ms: 50,
            reuse_address: true,
            multicast_all: false,
        },
        receiver2: ReceiverConfig {
            bind_ip: Ipv4Address { octet0: 0, octet1: 0, octet2: 0, octet3: 0 },
            port: 12345,
            join_interface: Ipv4Address { octet0: 127, octet1: 0, octet2: 123, octet3: 1 },
            groups: GroupRange { first: 3, last: 7 },
            read_timeout_ms: 50,
            reuse_address: true,
            multicast_all: false,
        },
        sender: SenderConfig {
            bind_ip: Ipv4Address { octet0: 127, octet1: 0, octet2: 123, octet3: 2 },
            bind_port: 0,
            groups: GroupRange { first: 1, last: 10 },
            dest_port: 12345,
            delay_ms: 200,
        },
        warmup_ms: 500,
        drain_ms: 500,
    }
}

} // verus!
