use local_transport::streamer::{
    browse_action, connect_target, has_path, is_private, local_candidates, real_addr, service_info,
    service_record, socket_address, AddrError, BrowseAction, BrowseEvent, IpAddress, Ipv4,
};

#[test]
fn absolute_paths_start_at_the_root() {
    assert!(has_path("/home/user/file"));
    assert!(has_path("/\n"));
    assert!(!has_path("home/user"));
    assert!(!has_path(""));
    assert!(!has_path(" /x"));
}

#[test]
fn private_ranges_are_recognised() {
    assert!(is_private(Ipv4(192, 168, 0, 1)));
    assert!(is_private(Ipv4(10, 1, 2, 3)));
    assert!(is_private(Ipv4(172, 16, 0, 1)));
    assert!(is_private(Ipv4(172, 31, 255, 255)));
    assert!(!is_private(Ipv4(172, 32, 0, 1)));
    assert!(!is_private(Ipv4(172, 15, 0, 1)));
    assert!(!is_private(Ipv4(192, 169, 0, 1)));
    assert!(!is_private(Ipv4(127, 0, 0, 1)));
    assert!(!is_private(Ipv4(8, 8, 8, 8)));
}

#[test]
fn candidates_are_the_distinct_private_ipv4_addresses() {
    let ifaces = vec![
        IpAddress::V4(Ipv4(127, 0, 0, 1)),
        IpAddress::V4(Ipv4(192, 168, 1, 5)),
        IpAddress::V6,
        IpAddress::V4(Ipv4(10, 0, 0, 2)),
        IpAddress::V4(Ipv4(192, 168, 1, 5)),
    ];
    assert_eq!(
        local_candidates(&ifaces),
        vec![Ipv4(192, 168, 1, 5), Ipv4(10, 0, 0, 2)]
    );
}

#[test]
fn real_addr_picks_a_private_address() {
    let ifaces = vec![
        IpAddress::V4(Ipv4(127, 0, 0, 1)),
        IpAddress::V4(Ipv4(192, 168, 1, 5)),
        IpAddress::V4(Ipv4(10, 0, 0, 2)),
    ];
    for _ in 0..20 {
        let ip = real_addr(&ifaces).unwrap();
        assert!(ip == Ipv4(192, 168, 1, 5) || ip == Ipv4(10, 0, 0, 2));
    }
    let single = vec![IpAddress::V6, IpAddress::V4(Ipv4(172, 20, 3, 4))];
    assert_eq!(real_addr(&single), Ok(Ipv4(172, 20, 3, 4)));
}

#[test]
fn real_addr_fails_without_a_private_address() {
    let ifaces = vec![IpAddress::V4(Ipv4(127, 0, 0, 1)), IpAddress::V6];
    assert_eq!(real_addr(&ifaces), Err(AddrError::NoLocalInterface));
    assert_eq!(real_addr(&Vec::new()), Err(AddrError::NoLocalInterface));
}

#[test]
fn socket_address_is_dotted_decimal_with_port() {
    assert_eq!(socket_address(Ipv4(192, 168, 1, 10), 8080), b"192.168.1.10:8080".to_vec());
    assert_eq!(socket_address(Ipv4(0, 0, 0, 0), 0), b"0.0.0.0:0".to_vec());
    assert_eq!(socket_address(Ipv4(255, 10, 9, 100), 65535), b"255.10.9.100:65535".to_vec());
}

#[test]
fn connect_target_uses_the_first_address() {
    assert_eq!(connect_target(&Vec::new(), 80), None);
    assert_eq!(
        connect_target(&vec![Ipv4(10, 0, 0, 7), Ipv4(10, 0, 0, 8)], 5656),
        Some(b"10.0.0.7:5656".to_vec())
    );
}

#[test]
fn service_record_carries_the_announced_names_and_port() {
    let record = service_record("_localTransfer._tcp.local.", Ipv4(192, 168, 1, 2), 5656);
    assert_eq!(record.service_type, "_localTransfer._tcp.local.");
    assert_eq!(record.instance, "my-localTransfer-instance");
    assert_eq!(record.host, "my-localTransfer-host.local.");
    assert_eq!(record.ip, Ipv4(192, 168, 1, 2));
    assert_eq!(record.port, 5656);
    let info = service_info(record).unwrap().into_info();
    assert_eq!(info.get_port(), 5656);
    assert_eq!(info.get_type(), "_localTransfer._tcp.local.");
    assert_eq!(info.get_fullname(), "my-localTransfer-instance._localTransfer._tcp.local.");
    assert_eq!(info.get_hostname(), "my-localTransfer-host.local.");
    assert!(info.get_addresses_v4().iter().any(|ip| ip.octets() == [192, 168, 1, 2]));
}

#[test]
fn discovery_events_lead_to_their_actions() {
    let resolved = BrowseEvent::Resolved { addresses: vec![Ipv4(10, 0, 0, 9)], port: 4000 };
    assert!(matches!(browse_action(&resolved), BrowseAction::Connect(t) if t == b"10.0.0.9:4000".to_vec()));
    let bare = BrowseEvent::Resolved { addresses: Vec::new(), port: 4000 };
    assert!(matches!(browse_action(&bare), BrowseAction::NoAddress));
    assert!(matches!(browse_action(&BrowseEvent::Removed), BrowseAction::Report));
    assert!(matches!(browse_action(&BrowseEvent::Other), BrowseAction::Ignore));
}
