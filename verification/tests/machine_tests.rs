use multicast_demo::addr::Ipv4Address;
use multicast_demo::addr::SocketAddress;
use multicast_demo::codec::parse_payload;
use multicast_demo::config::default_scenario;
use multicast_demo::orchestrator::OrchestratorAction;
use multicast_demo::orchestrator::OrchestratorPhase;
use multicast_demo::orchestrator::orchestrator_action;
use multicast_demo::orchestrator::orchestrator_advance;
use multicast_demo::receiver::ReceiverError;
use multicast_demo::receiver::ReceiverEvent;
use multicast_demo::receiver::ReceiverState;
use multicast_demo::receiver::ReceiverStatus;
use multicast_demo::sender::SenderAction;
use multicast_demo::sender::SenderError;
use multicast_demo::sender::SenderEvent;
use multicast_demo::sender::SenderPhase;
use multicast_demo::sender::build_plan;
use multicast_demo::sender::sender_action;
use multicast_demo::sender::sender_apply;
use multicast_demo::sender::sender_init;

fn sender_source() -> SocketAddress {
    SocketAddress {
        ip: Ipv4Address { octet0: 127, octet1: 0, octet2: 123, octet3: 2 },
        port: 40000,
    }
}

#[test]
fn plan_covers_every_group_once() {
    let c = default_scenario();
    let plan = build_plan(&c.sender);
    assert_eq!(plan.len(), 10);
    for (k, p) in plan.iter().enumerate() {
        let index = 1 + k as u8;
        assert_eq!(
            p.dest,
            SocketAddress {
                ip: Ipv4Address { octet0: 239, octet1: 0, octet2: 0, octet3: index },
                port: 12345,
            }
        );
        let expected = format!("packet {}", index);
        assert_eq!(p.payload, expected.as_bytes().to_vec());
    }
}

#[test]
fn sender_completes_whole_plan() {
    let c = default_scenario();
    let plan = build_plan(&c.sender);
    let mut s = sender_init();
    assert_eq!(sender_action(&c.sender, &s), SenderAction::Bind);
    s = sender_apply(&c.sender, s, SenderEvent::BindOk);
    let mut sent = 0usize;
    loop {
        match sender_action(&c.sender, &s) {
            SenderAction::Send(k) => {
                assert_eq!(k, sent);
                assert!(k < plan.len());
                s = sender_apply(&c.sender, s, SenderEvent::SendOk);
                sent += 1;
            }
            SenderAction::Stop => break,
            SenderAction::Bind => panic!("bind asked twice"),
        }
    }
    assert_eq!(sent, 10);
    assert_eq!(s.phase, SenderPhase::Done);
    assert_eq!(s.sent, 10);
}

#[test]
fn sender_bind_failure_sends_nothing() {
    let c = default_scenario();
    let mut s = sender_init();
    s = sender_apply(&c.sender, s, SenderEvent::BindFailed);
    assert_eq!(s.phase, SenderPhase::Failed(SenderError::Bind));
    assert_eq!(s.sent, 0);
    assert_eq!(sender_action(&c.sender, &s), SenderAction::Stop);
    s = sender_apply(&c.sender, s, SenderEvent::SendOk);
    assert_eq!(s.phase, SenderPhase::Failed(SenderError::Bind));
    assert_eq!(s.sent, 0);
}

#[test]
fn sender_send_failure_aborts_remainder() {
    let c = default_scenario();
    let mut s = sender_init();
    s = sender_apply(&c.sender, s, SenderEvent::BindOk);
    s = sender_apply(&c.sender, s, SenderEvent::SendOk);
    s = sender_apply(&c.sender, s, SenderEvent::SendOk);
    s = sender_apply(&c.sender, s, SenderEvent::SendFailed);
    assert_eq!(s.phase, SenderPhase::Failed(SenderError::Send));
    assert_eq!(s.sent, 2);
    assert_eq!(sender_action(&c.sender, &s), SenderAction::Stop);
}

#[test]
fn receiver_stops_cleanly_with_no_traffic() {
    let c = default_scenario();
    let mut r = ReceiverState::init(c.receiver1);
    r.step(ReceiverEvent::Timeout);
    r.step(ReceiverEvent::Timeout);
    r.step(ReceiverEvent::Stop);
    assert_eq!(r.status, ReceiverStatus::Finished);
    assert_eq!(r.received.len(), 0);
}

#[test]
fn receiver_records_datagrams_in_order() {
    let c = default_scenario();
    let src = sender_source();
    let mut r = ReceiverState::init(c.receiver2);
    r.step(ReceiverEvent::Datagram(b"packet 3".to_vec(), src));
    r.step(ReceiverEvent::Timeout);
    r.step(ReceiverEvent::Datagram(b"packet 4".to_vec(), src));
    r.step(ReceiverEvent::Stop);
    assert_eq!(r.status, ReceiverStatus::Finished);
    assert_eq!(r.received.len(), 2);
    assert_eq!(r.received[0].payload, b"packet 3".to_vec());
    assert_eq!(r.received[1].payload, b"packet 4".to_vec());
    assert_eq!(r.received[0].source, src);
    assert_eq!(parse_payload(&r.received[0].payload), Some(3));
    assert_eq!(parse_payload(&r.received[1].payload), Some(4));
}

#[test]
fn receiver_fails_on_undecodable_payload() {
    let c = default_scenario();
    let mut r = ReceiverState::init(c.receiver1);
    r.step(ReceiverEvent::Datagram(vec![0xFF, 0xFE], sender_source()));
    assert_eq!(r.status, ReceiverStatus::Failed(ReceiverError::Decode));
    assert_eq!(r.received.len(), 0);
    r.step(ReceiverEvent::Datagram(b"packet 1".to_vec(), sender_source()));
    assert_eq!(r.received.len(), 0);
}

#[test]
fn receiver_fails_on_socket_error() {
    let c = default_scenario();
    let mut r = ReceiverState::init(c.receiver1);
    r.step(ReceiverEvent::SocketError);
    assert_eq!(r.status, ReceiverStatus::Failed(ReceiverError::Socket));
}

#[test]
fn joined_receiver_observes_exactly_its_groups() {
    let c = default_scenario();
    let src = sender_source();
    let plan = build_plan(&c.sender);
    let mut r = ReceiverState::init(c.receiver2);
    for p in plan.iter() {
        if c.receiver2.groups.contains_address_exec(p.dest.ip) {
            r.step(ReceiverEvent::Datagram(p.payload.clone(), src));
        }
        r.step(ReceiverEvent::Timeout);
    }
    r.step(ReceiverEvent::Stop);
    assert_eq!(r.status, ReceiverStatus::Finished);
    assert_eq!(r.received.len(), 5);
    for (j, d) in r.received.iter().enumerate() {
        assert_eq!(parse_payload(&d.payload), Some(3 + j as u64));
        assert_eq!(d.source, src);
    }
}

#[test]
fn unjoined_receiver_observes_nothing() {
    let c = default_scenario();
    let src = sender_source();
    let plan = build_plan(&c.sender);
    let inert = multicast_demo::config::GroupRange { first: 1, last: 0 };
    let mut delivered = 0usize;
    for p in plan.iter() {
        if inert.contains_address_exec(p.dest.ip) {
            delivered += 1;
        }
    }
    assert_eq!(delivered, 0);
    let mut r = ReceiverState::init(c.receiver1);
    r.step(ReceiverEvent::Timeout);
    r.step(ReceiverEvent::Stop);
    assert_eq!(r.status, ReceiverStatus::Finished);
    assert_eq!(r.received.len(), 0);
    let _ = src;
}

#[test]
fn orchestrator_phases_in_strict_order() {
    let c = default_scenario();
    let mut p = OrchestratorPhase::Spawn;
    let mut actions = Vec::new();
    while p != OrchestratorPhase::Done {
        actions.push(orchestrator_action(&c, p));
        p = orchestrator_advance(p);
    }
    assert_eq!(orchestrator_action(&c, p), OrchestratorAction::Idle);
    assert_eq!(
        actions,
        vec![
            OrchestratorAction::SpawnReceivers,
            OrchestratorAction::Sleep(500),
            OrchestratorAction::RunSender,
            OrchestratorAction::Sleep(500),
            OrchestratorAction::StopAndJoin,
        ]
    );
}

#[test]
fn repeated_runs_reuse_same_configuration() {
    for _ in 0..3 {
        let c = default_scenario();
        assert!(c.receiver1.reuse_address);
        let plan = build_plan(&c.sender);
        assert_eq!(plan.len(), 10);
        let mut s = sender_init();
        s = sender_apply(&c.sender, s, SenderEvent::BindOk);
        for _ in 0..10 {
            s = sender_apply(&c.sender, s, SenderEvent::SendOk);
        }
        assert_eq!(s.phase, SenderPhase::Done);
    }
}
