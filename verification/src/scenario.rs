//! The scenario's delivery model and its laws. Multicast delivery on the
//! loopback interface within the run window is modeled as: a packet of the
//! sender's plan reaches a receiver exactly when the receiver joined the
//! packet's destination group, and same-sender traffic arrives in send
//! order. Under that model, the laws below pin down what each receiver
//! ends a run with.

use vstd::prelude::*;
use crate::addr::SocketAddress;
use crate::addr::group_address_spec;
use crate::codec::payload_spec;
use crate::config::GroupRange;
use crate::receiver::ReceivedModel;
use crate::receiver::ReceiverEventModel;
use crate::receiver::ReceiverModel;
use crate::receiver::ReceiverStatus;
use crate::receiver::receiver_init_spec;
use crate::receiver::receiver_step_spec;
use crate::sender::PacketModel;
use crate::config::SenderConfig;
use crate::sender::plan_spec;
use crate::utf8::is_utf8;
use crate::utf8::lemma_payload_is_utf8;

verus! {

/// The packets of `plan` that reach a receiver joined to `joined`, in
/// send order.
pub open spec fn delivered_spec(plan: Seq<PacketModel>, joined: GroupRange) -> Seq<PacketModel>
    decreases plan.len(),
{
    if plan.len() == 0 {
        Seq::empty()
    } else {
        let rest = delivered_spec(plan.skip(1), joined);
        if joined.contains_address(plan[0].dest.ip) {
            seq![plan[0]] + rest
        } else {
            rest
        }
    }
}

/// First position of `plan` whose group the receiver joined, when the
/// plan's first packet addresses group index `base`.
pub open spec fn overlap_lo(joined: GroupRange, base: int) -> int {
    if joined.first > base {
        joined.first - base
    } else {
        0
    }
}

/// Last such position of a plan of `n` packets.
pub open spec fn overlap_hi(joined: GroupRange, base: int, n: int) -> int {
    if joined.last - base < n - 1 {
        joined.last - base
    } else {
        n - 1
    }
}

/// For a plan that addresses consecutive group indices starting at `base`,
/// what is delivered is exactly the contiguous block of positions whose
/// group the receiver joined, in send order.
pub proof fn lemma_delivered_indexed(plan: Seq<PacketModel>, joined: GroupRange, base: int)
    requires
        0 <= base,
        base + plan.len() <= 256,
        forall|k: int|
            0 <= k < plan.len() ==> (#[trigger] plan[k]).dest.ip == group_address_spec(
                (base + k) as u8,
            ),
    ensures
        overlap_lo(joined, base) > overlap_hi(joined, base, plan.len() as int)
            ==> delivered_spec(plan, joined) == Seq::<PacketModel>::empty(),
        overlap_lo(joined, base) <= overlap_hi(joined, base, plan.len() as int)
            ==> delivered_spec(plan, joined) == Seq::new(
            (overlap_hi(joined, base, plan.len() as int) - overlap_lo(joined, base) + 1) as nat,
            |j: int| plan[overlap_lo(joined, base) + j],
        ),
    decreases plan.len(),
{
    if plan.len() == 0 {
    } else {
        let n = plan.len() as int;
        let rest_plan = plan.skip(1);
        assert forall|k: int|
            0 <= k < rest_plan.len() implies (#[trigger] rest_plan[k]).dest.ip
            == group_address_spec(((base + 1) + k) as u8) by {
            assert(rest_plan[k] == plan[k + 1]);
        }
        lemma_delivered_indexed(rest_plan, joined, base + 1);
        let lo = overlap_lo(joined, base);
        let hi = overlap_hi(joined, base, n);
        let lo1 = overlap_lo(joined, base + 1);
        let hi1 = overlap_hi(joined, base + 1, n - 1);
        let rest = delivered_spec(rest_plan, joined);
        let contains0 = joined.contains_address(plan[0].dest.ip);
        assert(plan[0].dest.ip == group_address_spec((base + 0) as u8));
        if joined.contains(base as u8) {
            assert(contains0) by {
                assert(plan[0].dest.ip == group_address_spec(base as u8));
            }
        }
        if contains0 {
            let i = choose|i: u8| joined.contains(i) && plan[0].dest.ip == group_address_spec(i);
            assert(group_address_spec(i).octet3 == i);
            assert(i == base as u8);
            assert(joined.contains(base as u8));
        }
        if contains0 {
            assert(lo == 0);
            assert(hi >= 0);
            assert(lo1 == 0);
            if hi == 0 {
                assert(hi1 < lo1);
                assert(delivered_spec(plan, joined) =~= Seq::new(
                    1,
                    |j: int| plan[lo + j],
                ));
            } else {
                assert(hi1 == hi - 1 && hi1 >= 0);
                assert(delivered_spec(plan, joined) =~= Seq::new(
                    (hi - lo + 1) as nat,
                    |j: int| plan[lo + j],
                )) by {
                    assert(forall|j: int|
                        0 <= j < rest.len() ==> rest[j] == rest_plan[lo1 + j]);
                    assert(forall|j: int|
                        0 <= j < rest.len() ==> #[trigger] rest_plan[lo1 + j] == plan[
                            lo1 + j + 1
                        ]);
                }
            }
        } else {
            assert(!joined.contains(base as u8));
            if joined.last < base {
                assert(hi < 0 && hi1 < lo1);
            } else {
                assert(joined.first > base);
                assert(lo1 == lo - 1);
                assert(hi1 == hi - 1);
                if lo <= hi {
                    assert(delivered_spec(plan, joined) =~= Seq::new(
                        (hi - lo + 1) as nat,
                        |j: int| plan[lo + j],
                    )) by {
                        assert(forall|j: int|
                            0 <= j < rest.len() ==> rest[j] == rest_plan[lo1 + j]);
                        assert(forall|j: int|
                            0 <= j < rest.len() ==> #[trigger] rest_plan[lo1 + j] == plan[
                                lo1 + j + 1
                            ]);
                    }
                }
            }
        }
    }
}

/// A receiver that joined no group is delivered nothing.
pub proof fn lemma_delivered_empty_joined(plan: Seq<PacketModel>, joined: GroupRange)
    requires
        joined.is_empty(),
    ensures
        delivered_spec(plan, joined) == Seq::<PacketModel>::empty(),
    decreases plan.len(),
{
    if plan.len() > 0 {
        lemma_delivered_empty_joined(plan.skip(1), joined);
    }
}

/// The datagrams among a run's observations, in observation order.
pub open spec fn datagrams_of(evs: Seq<ReceiverEventModel>) -> Seq<ReceivedModel>
    decreases evs.len(),
{
    if evs.len() == 0 {
        Seq::empty()
    } else {
        (match evs[0] {
            ReceiverEventModel::Datagram(p, s) => seq![ReceivedModel { payload: p, source: s }],
            _ => Seq::empty(),
        }) + datagrams_of(evs.skip(1))
    }
}

/// No observation is a socket failure.
pub open spec fn no_socket_error(evs: Seq<ReceiverEventModel>) -> bool {
    forall|k: int| 0 <= k < evs.len() ==> evs[k] != ReceiverEventModel::SocketError
}

/// The observations end with the stop request and hold it nowhere else.
pub open spec fn stops_at_end(evs: Seq<ReceiverEventModel>) -> bool {
    &&& evs.len() > 0
    &&& evs.last() == ReceiverEventModel::Stop
    &&& forall|k: int| 0 <= k < evs.len() - 1 ==> evs[k] != ReceiverEventModel::Stop
}

/// Every observed datagram carries well-formed text.
pub open spec fn all_payloads_utf8(evs: Seq<ReceiverEventModel>) -> bool {
    forall|k: int|
        0 <= k < evs.len() ==> (#[trigger] evs[k] matches ReceiverEventModel::Datagram(p, s)
            ==> is_utf8(p))
}

/// The receiver's state after a whole run: the observations applied in
/// order.
pub open spec fn receiver_run_spec(m: ReceiverModel, evs: Seq<ReceiverEventModel>) -> ReceiverModel
    decreases evs.len(),
{
    if evs.len() == 0 {
        m
    } else {
        receiver_run_spec(receiver_step_spec(m, evs[0]), evs.skip(1))
    }
}

/// Each observed datagram appears among the run's datagrams.
proof fn lemma_datagram_observed(evs: Seq<ReceiverEventModel>, k: int, p: Seq<u8>, src: SocketAddress)
    requires
        0 <= k < evs.len(),
        evs[k] == ReceiverEventModel::Datagram(p, src),
    ensures
        exists|j: int|
            0 <= j < datagrams_of(evs).len() && datagrams_of(evs)[j] == (ReceivedModel {
                payload: p,
                source: src,
            }),
    decreases evs.len(),
{
    let d = ReceivedModel { payload: p, source: src };
    if k == 0 {
        assert(datagrams_of(evs)[0] == d);
    } else {
        lemma_datagram_observed(evs.skip(1), k - 1, p, src);
        let j = choose|j: int|
            0 <= j < datagrams_of(evs.skip(1)).len() && datagrams_of(evs.skip(1))[j] == d;
        let head = (match evs[0] {
            ReceiverEventModel::Datagram(q, s) => seq![ReceivedModel { payload: q, source: s }],
            _ => Seq::<ReceivedModel>::empty(),
        });
        assert(datagrams_of(evs)[head.len() + j] == d);
    }
}

/// A run with no socket failure, whose datagrams all carry well-formed
/// text, and which is stopped at its end, finishes successfully having
/// recorded exactly its datagrams, in arrival order.
pub proof fn lemma_receiver_run(m: ReceiverModel, evs: Seq<ReceiverEventModel>)
    requires
        m.status == ReceiverStatus::Running,
        no_socket_error(evs),
        stops_at_end(evs),
        all_payloads_utf8(evs),
    ensures
        receiver_run_spec(m, evs).status == ReceiverStatus::Finished,
        receiver_run_spec(m, evs).received == m.received + datagrams_of(evs),
    decreases evs.len(),
{
    let e0 = evs[0];
    let m1 = receiver_step_spec(m, e0);
    let rest = evs.skip(1);
    if evs.len() == 1 {
        assert(e0 == ReceiverEventModel::Stop);
        assert(receiver_run_spec(m, evs) == m1);
        assert(m.received + datagrams_of(evs) =~= m.received);
    } else {
        assert(e0 != ReceiverEventModel::Stop);
        assert(e0 != ReceiverEventModel::SocketError);
        assert(no_socket_error(rest)) by {
            assert(forall|k: int| 0 <= k < rest.len() ==> rest[k] == evs[k + 1]);
        }
        assert(stops_at_end(rest)) by {
            assert(rest.last() == evs.last());
            assert(forall|k: int| 0 <= k < rest.len() ==> rest[k] == evs[k + 1]);
        }
        assert(all_payloads_utf8(rest)) by {
            assert(forall|k: int| 0 <= k < rest.len() ==> rest[k] == evs[k + 1]);
        }
        match e0 {
            ReceiverEventModel::Timeout => {
                lemma_receiver_run(m1, rest);
                assert(m.received + datagrams_of(evs) =~= m.received + datagrams_of(rest));
            },
            ReceiverEventModel::Datagram(p, src) => {
                assert(is_utf8(p));
                let d = ReceivedModel { payload: p, source: src };
                assert(m1.received == m.received.push(d));
                lemma_receiver_run(m1, rest);
                assert(m.received + datagrams_of(evs) =~= m.received.push(d) + datagrams_of(
                    rest,
                ));
            },
            _ => {
                assert(false);
            },
        }
    }
}

/// First group index that both the sender addresses and the receiver
/// joined.
pub open spec fn overlap_first(sending: GroupRange, joined: GroupRange) -> int {
    if sending.first > joined.first {
        sending.first as int
    } else {
        joined.first as int
    }
}

/// Last such group index.
pub open spec fn overlap_last(sending: GroupRange, joined: GroupRange) -> int {
    if sending.last < joined.last {
        sending.last as int
    } else {
        joined.last as int
    }
}

/// How many groups both the sender addresses and the receiver joined.
pub open spec fn overlap_count(sending: GroupRange, joined: GroupRange) -> int {
    if overlap_first(sending, joined) > overlap_last(sending, joined) {
        0
    } else {
        overlap_last(sending, joined) - overlap_first(sending, joined) + 1
    }
}

/// A receiver joined to `joined`, fed exactly the sender's traffic to its
/// groups and then stopped, finishes successfully and observes exactly one
/// datagram per group index both sides share, in increasing index order,
/// each labeled with its own index and carrying the sender's address.
pub proof fn lemma_receiver_observes_joined_traffic(
    c: SenderConfig,
    joined: GroupRange,
    src: SocketAddress,
    evs: Seq<ReceiverEventModel>,
)
    requires
        no_socket_error(evs),
        stops_at_end(evs),
        datagrams_of(evs) == delivered_spec(plan_spec(c), joined).map_values(
            |p: PacketModel| (ReceivedModel { payload: p.payload, source: src }),
        ),
    ensures
        receiver_run_spec(receiver_init_spec(), evs).status == ReceiverStatus::Finished,
        receiver_run_spec(receiver_init_spec(), evs).received.len() == overlap_count(
            c.groups,
            joined,
        ),
        forall|j: int|
            0 <= j < overlap_count(c.groups, joined) ==> receiver_run_spec(
                receiver_init_spec(),
                evs,
            ).received[j] == (ReceivedModel {
                payload: payload_spec((overlap_first(c.groups, joined) + j) as nat),
                source: src,
            }),
{
    let plan = plan_spec(c);
    let base = c.groups.first as int;
    assert forall|k: int|
        0 <= k < plan.len() implies (#[trigger] plan[k]).dest.ip == group_address_spec(
        (base + k) as u8,
    ) by {
        assert(plan[k] == crate::sender::plan_packet_spec(c, k));
    }
    lemma_delivered_indexed(plan, joined, base);
    let delivered = delivered_spec(plan, joined);
    let lo = overlap_lo(joined, base);
    let hi = overlap_hi(joined, base, plan.len() as int);
    let n = overlap_count(c.groups, joined);
    let first = overlap_first(c.groups, joined);
    if plan.len() == 0 {
        assert(lo > hi);
        assert(n == 0);
    } else {
        assert(hi - lo + 1 == n || (lo > hi && n == 0));
    }
    assert(delivered.len() == n);
    assert forall|j: int|
        0 <= j < n implies delivered[j] == crate::sender::plan_packet_spec(c, lo + j) by {
        assert(delivered[j] == plan[lo + j]);
    }
    assert forall|j: int|
        0 <= j < n implies delivered[j].payload == payload_spec((first + j) as nat) by {
        assert(delivered[j] == crate::sender::plan_packet_spec(c, lo + j));
        assert(base + lo == first);
    }
    assert(all_payloads_utf8(evs)) by {
        assert forall|k: int|
            0 <= k < evs.len() implies (#[trigger] evs[k] matches ReceiverEventModel::Datagram(
            p,
            s,
        ) ==> is_utf8(p)) by {
            match evs[k] {
                ReceiverEventModel::Datagram(p, s) => {
                    lemma_datagram_observed(evs, k, p, s);
                    let j = choose|j: int|
                        0 <= j < datagrams_of(evs).len() && datagrams_of(evs)[j]
                            == (ReceivedModel { payload: p, source: s });
                    assert(datagrams_of(evs)[j].payload == delivered[j].payload);
                    lemma_payload_is_utf8((first + j) as nat);
                },
                _ => {},
            }
        }
    }
    lemma_receiver_run(receiver_init_spec(), evs);
    assert(receiver_run_spec(receiver_init_spec(), evs).received =~= datagrams_of(evs));
}

/// A receiver with no configured group joins observes no datagram at all
/// and terminates successfully when the stop request arrives.
pub proof fn lemma_receiver_no_joins(
    c: SenderConfig,
    joined: GroupRange,
    src: SocketAddress,
    evs: Seq<ReceiverEventModel>,
)
    requires
        joined.is_empty(),
        no_socket_error(evs),
        stops_at_end(evs),
        datagrams_of(evs) == delivered_spec(plan_spec(c), joined).map_values(
            |p: PacketModel| (ReceivedModel { payload: p.payload, source: src }),
        ),
    ensures
        delivered_spec(plan_spec(c), joined) == Seq::<PacketModel>::empty(),
        receiver_run_spec(receiver_init_spec(), evs).status == ReceiverStatus::Finished,
        receiver_run_spec(receiver_init_spec(), evs).received == Seq::<ReceivedModel>::empty(),
{
    lemma_delivered_empty_joined(plan_spec(c), joined);
    assert(datagrams_of(evs) =~= Seq::<ReceivedModel>::empty());
    assert(all_payloads_utf8(evs)) by {
        assert forall|k: int|
            0 <= k < evs.len() implies (#[trigger] evs[k] matches ReceiverEventModel::Datagram(
            p,
            s,
        ) ==> is_utf8(p)) by {
            match evs[k] {
                ReceiverEventModel::Datagram(p, s) => {
                    lemma_datagram_observed(evs, k, p, s);
                },
                _ => {},
            }
        }
    }
    lemma_receiver_run(receiver_init_spec(), evs);
    assert(receiver_run_spec(receiver_init_spec(), evs).received =~= Seq::<
        ReceivedModel,
    >::empty());
}

/// A payload formatted for index `i` and delivered to a running receiver
/// is recorded byte-for-byte, and what is recorded decodes back to `i`.
pub proof fn lemma_payload_delivery_round_trip(i: u64, m: ReceiverModel, src: SocketAddress)
    requires
        m.status == ReceiverStatus::Running,
    ensures
        receiver_step_spec(
            m,
            ReceiverEventModel::Datagram(payload_spec(i as nat), src),
        ).received == m.received.push(
            (ReceivedModel { payload: payload_spec(i as nat), source: src }),
        ),
        receiver_step_spec(
            m,
            ReceiverEventModel::Datagram(payload_spec(i as nat), src),
        ).status == ReceiverStatus::Running,
        crate::codec::dec_value_spec(payload_spec(i as nat).skip(7)) == i as nat,
{
    lemma_payload_is_utf8(i as nat);
    crate::codec::lemma_payload_round_trip(i);
}

} // verus!
