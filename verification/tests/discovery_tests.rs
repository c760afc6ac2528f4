use audio_streamer::discovery::{
    discover_request_bytes, handle_discovery_request, is_discover, parse_server_reply,
    run_discovery, server_endpoint, server_message, ClientSet, DiscoveryEvent, Endpoint,
    DEFAULT_STREAM_PORT, DISCOVERY_PORT,
};
use audio_streamer::AudioStreamerError;

#[test]
fn well_known_ports() {
    assert_eq!(DISCOVERY_PORT, 50000);
    assert_eq!(DEFAULT_STREAM_PORT, 50001);
}

#[test]
fn request_and_reply_wire_forms() {
    assert_eq!(discover_request_bytes(), "DISCOVER".as_bytes().to_vec());
    assert_eq!(server_message(50001), "SERVER:50001".as_bytes().to_vec());
    assert_eq!(server_message(0), "SERVER:0".as_bytes().to_vec());
    assert_eq!(server_message(65535), "SERVER:65535".as_bytes().to_vec());
}

#[test]
fn is_discover_requires_the_exact_literal() {
    assert!(is_discover(&"DISCOVER".as_bytes().to_vec()));
    assert!(!is_discover(&"DISCOVERx".as_bytes().to_vec()));
    assert!(!is_discover(&"discover".as_bytes().to_vec()));
    assert!(!is_discover(&Vec::new()));
}

#[test]
fn parse_reply_accepts_well_formed() {
    assert_eq!(
        parse_server_reply(&"SERVER:50001".as_bytes().to_vec()),
        Some(50001)
    );
    assert_eq!(
        parse_server_reply(&"SERVER: 50001 \n".as_bytes().to_vec()),
        Some(50001)
    );
    assert_eq!(
        parse_server_reply(&"SERVER:050001".as_bytes().to_vec()),
        Some(50001)
    );
}

#[test]
fn parse_reply_rejects_malformed() {
    assert_eq!(parse_server_reply(&"SERVE:50001".as_bytes().to_vec()), None);
    assert_eq!(parse_server_reply(&"SERVER:".as_bytes().to_vec()), None);
    assert_eq!(parse_server_reply(&"SERVER:abc".as_bytes().to_vec()), None);
    assert_eq!(parse_server_reply(&"SERVER:70000".as_bytes().to_vec()), None);
    assert_eq!(parse_server_reply(&"SERVER:50 01".as_bytes().to_vec()), None);
    assert_eq!(parse_server_reply(&Vec::new()), None);
}

#[test]
fn every_announcement_parses_back() {
    for port in [0u16, 1, 9, 10, 80, 50000, 50001, 65535] {
        assert_eq!(parse_server_reply(&server_message(port)), Some(port));
    }
}

#[test]
fn discover_subscribes_and_replies() {
    let mut clients = ClientSet::new();
    let reply = handle_discovery_request(
        &mut clients,
        &"DISCOVER".as_bytes().to_vec(),
        0x0A000001,
        50001,
    );
    assert_eq!(reply, Some("SERVER:50001".as_bytes().to_vec()));
    assert_eq!(clients.len(), 1);
    assert!(clients.contains(Endpoint {
        ip: 0x0A000001,
        port: 50001
    }));
}

#[test]
fn stray_datagram_is_ignored() {
    let mut clients = ClientSet::new();
    let reply =
        handle_discovery_request(&mut clients, &"HELLO".as_bytes().to_vec(), 0x0A000001, 50001);
    assert_eq!(reply, None);
    assert_eq!(clients.len(), 0);
}

#[test]
fn distinct_requests_grow_the_set() {
    let mut clients = ClientSet::new();
    let request = "DISCOVER".as_bytes().to_vec();
    for ip in [1u32, 2, 3] {
        handle_discovery_request(&mut clients, &request, ip, 50001);
    }
    assert_eq!(clients.len(), 3);
}

#[test]
fn repeated_requests_do_not_grow_the_set() {
    let mut clients = ClientSet::new();
    let request = "DISCOVER".as_bytes().to_vec();
    for _ in 0..5 {
        handle_discovery_request(&mut clients, &request, 7, 50001);
    }
    assert_eq!(clients.len(), 1);
    let snapshot = clients.snapshot();
    assert_eq!(snapshot.len(), 1);
    assert_eq!(snapshot[0], Endpoint { ip: 7, port: 50001 });
}

#[test]
fn first_well_formed_reply_wins() {
    let events = vec![
        DiscoveryEvent::Packet {
            data: "junk".as_bytes().to_vec(),
            from_ip: 9,
        },
        DiscoveryEvent::Packet {
            data: "SERVER:50001".as_bytes().to_vec(),
            from_ip: 0x0A000002,
        },
        DiscoveryEvent::Packet {
            data: "SERVER:60000".as_bytes().to_vec(),
            from_ip: 0x0A000003,
        },
    ];
    let r = run_discovery(&events).expect("a well-formed reply arrived");
    assert_eq!(
        r,
        Endpoint {
            ip: 0x0A000002,
            port: 50001
        }
    );
}

#[test]
fn timeout_before_any_reply_fails() {
    let events = vec![
        DiscoveryEvent::Packet {
            data: "noise".as_bytes().to_vec(),
            from_ip: 9,
        },
        DiscoveryEvent::TimedOut,
        DiscoveryEvent::Packet {
            data: "SERVER:50001".as_bytes().to_vec(),
            from_ip: 1,
        },
    ];
    let r = run_discovery(&events);
    assert!(matches!(r, Err(AudioStreamerError::NetworkError(_))));
}

#[test]
fn no_events_fails() {
    let events: Vec<DiscoveryEvent> = Vec::new();
    assert!(matches!(
        run_discovery(&events),
        Err(AudioStreamerError::NetworkError(_))
    ));
}

#[test]
fn server_endpoint_reads_the_handle() {
    let ep = Endpoint { ip: 5, port: 50001 };
    assert_eq!(server_endpoint(&Some(ep)).unwrap(), ep);
    assert!(matches!(
        server_endpoint(&None),
        Err(AudioStreamerError::NetworkError(_))
    ));
}
