use multicast_demo::addr::Ipv4Address;
use multicast_demo::config::GroupRange;
use multicast_demo::config::default_scenario;

#[test]
fn default_scenario_fixed_values() {
    let c = default_scenario();
    assert_eq!(c.receiver1.port, 12345);
    assert_eq!(c.receiver2.port, 12345);
    assert_eq!(c.sender.dest_port, 12345);
    assert_eq!(c.receiver1.groups, GroupRange { first: 1, last: 5 });
    assert_eq!(c.receiver2.groups, GroupRange { first: 3, last: 7 });
    assert_eq!(c.sender.groups, GroupRange { first: 1, last: 10 });
    assert_eq!(
        c.receiver1.join_interface,
        Ipv4Address { octet0: 127, octet1: 0, octet2: 123, octet3: 1 }
    );
    assert_eq!(
        c.sender.bind_ip,
        Ipv4Address { octet0: 127, octet1: 0, octet2: 123, octet3: 2 }
    );
    assert_eq!(c.sender.bind_port, 0);
    assert_eq!(c.receiver1.read_timeout_ms, 50);
    assert_eq!(c.sender.delay_ms, 200);
    assert_eq!(c.warmup_ms, 500);
    assert_eq!(c.drain_ms, 500);
}

#[test]
fn receive_sockets_always_reuse_address() {
    let c = default_scenario();
    assert!(c.receiver1.reuse_address);
    assert!(c.receiver2.reuse_address);
    assert!(!c.receiver1.multicast_all);
    assert!(!c.receiver2.multicast_all);
}

#[test]
fn group_range_addresses_in_order() {
    let r = GroupRange { first: 1, last: 5 };
    let addrs = r.addresses();
    assert_eq!(addrs.len(), 5);
    for (k, a) in addrs.iter().enumerate() {
        assert_eq!(
            *a,
            Ipv4Address { octet0: 239, octet1: 0, octet2: 0, octet3: 1 + k as u8 }
        );
    }
}

#[test]
fn empty_group_range_has_no_addresses() {
    let r = GroupRange { first: 1, last: 0 };
    assert_eq!(r.addresses().len(), 0);
    assert!(!r.contains_index_exec(0));
    assert!(!r.contains_index_exec(1));
}

#[test]
fn group_membership_by_address() {
    let r = GroupRange { first: 3, last: 7 };
    let inside = Ipv4Address { octet0: 239, octet1: 0, octet2: 0, octet3: 5 };
    let below = Ipv4Address { octet0: 239, octet1: 0, octet2: 0, octet3: 2 };
    let above = Ipv4Address { octet0: 239, octet1: 0, octet2: 0, octet3: 8 };
    let not_a_group = Ipv4Address { octet0: 239, octet1: 0, octet2: 1, octet3: 5 };
    assert!(r.contains_address_exec(inside));
    assert!(!r.contains_address_exec(below));
    assert!(!r.contains_address_exec(above));
    assert!(!r.contains_address_exec(not_a_group));
}
