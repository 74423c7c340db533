use vbus_gamepad::server::{
    acquire_client_slot, add_connected_client, cancel_all_clients, datagram_names_slot_zero, disconnect_client,
    disconnect_inactive_clients, handle_datagram, release_client_slot, ClientInfo, PeerAddr,
    ServerInfo, ServerState, UdpAction,
};

fn peer(n: u32) -> PeerAddr {
    PeerAddr::V4 { ipv4: 0x0A00_0000 + n, port: 5000 }
}

fn connect(st: &mut ServerState, from: PeerAddr, ip: &str, now: u64) -> UdpAction {
    let mut buf = [0u8; 1024];
    buf[0] = 0x00;
    handle_datagram(st, &buf, 1, from, ip.to_string(), now)
}

fn data(st: &mut ServerState, slot: u8, seq: u32, buttons: u16, from: PeerAddr, now: u64) -> UdpAction {
    let mut buf = [0u8; 1024];
    buf[0] = 0x01;
    buf[1] = slot;
    buf[2..6].copy_from_slice(&seq.to_le_bytes());
    buf[6..8].copy_from_slice(&buttons.to_le_bytes());
    buf[8] = 7;
    buf[10..12].copy_from_slice(&(-5i16).to_le_bytes());
    handle_datagram(st, &buf, 22, from, String::new(), now)
}

fn simple(st: &mut ServerState, kind: u8, slot: u8, from: PeerAddr, now: u64) -> UdpAction {
    let mut buf = [0u8; 1024];
    buf[0] = kind;
    buf[1] = slot;
    handle_datagram(st, &buf, 2, from, String::new(), now)
}

#[test]
fn acquire_takes_lowest_free_slot() {
    let mut st = ServerState::new();
    assert_eq!(acquire_client_slot(&mut st.slots), Some((0, 1)));
    assert_eq!(acquire_client_slot(&mut st.slots), Some((1, 2)));
    assert!(st.slots[0].occupied);
    assert_eq!(st.slots[1].client_number, Some(2));
    assert_eq!(release_client_slot(&mut st, 1), 1);
    assert_eq!(acquire_client_slot(&mut st.slots), Some((0, 1)));
}

#[test]
fn acquire_on_full_table_gives_none() {
    let mut st = ServerState::new();
    for _ in 0..4 {
        assert!(acquire_client_slot(&mut st.slots).is_some());
    }
    let before = st.slots;
    assert_eq!(acquire_client_slot(&mut st.slots), None);
    assert_eq!(st.slots, before);
}

#[test]
fn connected_list_holds_at_most_four() {
    let mut clients: Vec<ClientInfo> = Vec::new();
    for i in 0..4 {
        let info = add_connected_client(&mut clients, format!("10.0.0.{}", i), i).unwrap();
        assert_eq!(info.slot, i + 1);
        assert_eq!(info.ip, format!("10.0.0.{}", i));
    }
    assert!(add_connected_client(&mut clients, "10.0.0.9".to_string(), 0).is_none());
    assert_eq!(clients.len(), 4);
}

#[test]
fn disconnect_client_removes_by_position() {
    let mut clients: Vec<ClientInfo> = Vec::new();
    add_connected_client(&mut clients, "a".to_string(), 2);
    add_connected_client(&mut clients, "b".to_string(), 0);
    disconnect_client(&mut clients, 5);
    assert_eq!(clients.len(), 2);
    disconnect_client(&mut clients, 0);
    assert_eq!(clients.len(), 1);
    assert_eq!(clients[0].ip, "b");
}

#[test]
fn release_removes_list_entry_at_client_position() {
    let mut st = ServerState::new();
    connect(&mut st, peer(1), "10.0.0.1", 0);
    connect(&mut st, peer(2), "10.0.0.2", 0);
    release_client_slot(&mut st, 2);
    assert!(!st.slots[1].occupied);
    assert!(st.slots[0].occupied);
    assert_eq!(st.clients.len(), 1);
    assert_eq!(st.clients[0].ip, "10.0.0.1");
}

#[test]
fn connect_takes_slot_and_acknowledges() {
    let mut st = ServerState::new();
    match connect(&mut st, peer(1), "10.0.0.1", 100) {
        UdpAction::Connected { slot_index, client_id, ack } => {
            assert_eq!((slot_index, client_id), (0, 1));
            assert_eq!(ack, [0x00, 1]);
        }
        other => panic!("unexpected {:?}", other),
    }
    assert_eq!(st.slots[0].addr, Some(peer(1)));
    assert_eq!(st.slots[0].last_packet_time, Some(100));
    assert_eq!(st.slots[0].last_sequence, 0);
    assert_eq!(st.clients.len(), 1);
    assert_eq!(st.clients[0].slot, 1);
    assert_eq!(st.clients[0].ip, "10.0.0.1");
}

#[test]
fn fifth_connect_is_refused() {
    let mut st = ServerState::new();
    for i in 0..4 {
        assert!(matches!(connect(&mut st, peer(i), "x", 0), UdpAction::Connected { .. }));
    }
    assert!(matches!(connect(&mut st, peer(9), "x", 0), UdpAction::NoAction));
    assert_eq!(st.clients.len(), 4);
}

#[test]
fn data_with_newer_sequence_is_executed() {
    let mut st = ServerState::new();
    connect(&mut st, peer(1), "x", 0);
    match data(&mut st, 1, 5, 0x2000, peer(1), 10) {
        UdpAction::Input { client_id, gamepad, report } => {
            assert_eq!(client_id, 1);
            assert_eq!(gamepad.w_buttons, 0x2000);
            assert_eq!(gamepad.b_left_trigger, 7);
            assert_eq!(gamepad.s_thumb_lx, -5);
            assert_eq!(report, vbus_gamepad::driver::build_report(1, &gamepad));
        }
        other => panic!("unexpected {:?}", other),
    }
    assert_eq!(st.slots[0].last_sequence, 5);
    assert_eq!(st.slots[0].last_packet_time, Some(10));
}

#[test]
fn stale_or_repeated_sequence_is_dropped() {
    let mut st = ServerState::new();
    connect(&mut st, peer(1), "x", 0);
    data(&mut st, 1, 5, 1, peer(1), 10);
    assert!(matches!(data(&mut st, 1, 5, 2, peer(1), 20), UdpAction::NoAction));
    assert!(matches!(data(&mut st, 1, 4, 2, peer(1), 30), UdpAction::NoAction));
    assert_eq!(st.slots[0].last_sequence, 5);
    assert_eq!(st.slots[0].last_packet_time, Some(30));
    assert!(matches!(data(&mut st, 1, 6, 2, peer(1), 40), UdpAction::Input { .. }));
}

#[test]
fn sequence_zero_is_never_executed_first() {
    let mut st = ServerState::new();
    connect(&mut st, peer(1), "x", 0);
    assert!(matches!(data(&mut st, 1, 0, 1, peer(1), 10), UdpAction::NoAction));
}

#[test]
fn data_from_another_peer_is_ignored() {
    let mut st = ServerState::new();
    connect(&mut st, peer(1), "x", 0);
    let before = st.slots;
    assert!(matches!(data(&mut st, 1, 9, 1, peer(2), 10), UdpAction::NoAction));
    assert!(matches!(data(&mut st, 2, 9, 1, peer(1), 10), UdpAction::NoAction));
    assert!(matches!(data(&mut st, 200, 9, 1, peer(1), 10), UdpAction::NoAction));
    assert_eq!(st.slots, before);
}

#[test]
fn short_data_and_unknown_packets_are_ignored() {
    let mut st = ServerState::new();
    connect(&mut st, peer(1), "x", 0);
    let before = st.slots;
    let mut buf = [0u8; 1024];
    buf[0] = 0x01;
    buf[1] = 1;
    buf[2] = 9;
    assert!(matches!(handle_datagram(&mut st, &buf, 21, peer(1), String::new(), 5), UdpAction::NoAction));
    buf[0] = 0x03;
    assert!(matches!(handle_datagram(&mut st, &buf, 30, peer(1), String::new(), 5), UdpAction::NoAction));
    buf[0] = 0x00;
    assert!(matches!(handle_datagram(&mut st, &buf, 0, peer(1), String::new(), 5), UdpAction::NoAction));
    assert_eq!(st.slots, before);
}

#[test]
fn disconnect_from_owner_releases_slot() {
    let mut st = ServerState::new();
    connect(&mut st, peer(1), "x", 0);
    assert!(matches!(simple(&mut st, 0x02, 1, peer(2), 1), UdpAction::NoAction));
    assert!(st.slots[0].occupied);
    match simple(&mut st, 0x02, 1, peer(1), 1) {
        UdpAction::Disconnected { serial } => assert_eq!(serial, 1),
        other => panic!("unexpected {:?}", other),
    }
    assert_eq!(st.slots, ServerState::new().slots);
    assert!(st.clients.is_empty());
}

#[test]
fn heartbeat_refreshes_time_of_owner_only() {
    let mut st = ServerState::new();
    connect(&mut st, peer(1), "x", 0);
    simple(&mut st, 0x04, 1, peer(2), 50);
    assert_eq!(st.slots[0].last_packet_time, Some(0));
    assert!(matches!(simple(&mut st, 0x04, 1, peer(1), 60), UdpAction::NoAction));
    assert_eq!(st.slots[0].last_packet_time, Some(60));
}

#[test]
fn inactive_clients_are_disconnected() {
    let mut st = ServerState::new();
    connect(&mut st, peer(1), "a", 0);
    connect(&mut st, peer(2), "b", 1000);
    assert!(disconnect_inactive_clients(&mut st, 3000).is_empty());
    assert_eq!(disconnect_inactive_clients(&mut st, 3001), vec![1u32]);
    assert!(!st.slots[0].occupied);
    assert!(st.slots[1].occupied);
    assert_eq!(disconnect_inactive_clients(&mut st, 4001), vec![2u32]);
    assert!(!st.slots[1].occupied);
}

#[test]
fn cancel_all_releases_every_client() {
    let mut st = ServerState::new();
    connect(&mut st, peer(1), "a", 0);
    connect(&mut st, peer(2), "b", 0);
    connect(&mut st, peer(3), "c", 0);
    release_client_slot(&mut st, 2);
    assert_eq!(cancel_all_clients(&mut st), vec![1u32, 3u32]);
    assert!(st.slots.iter().all(|s| !s.occupied));
    assert!(cancel_all_clients(&mut st).is_empty());
}

#[test]
fn server_info_texts() {
    let i = ServerInfo::initial();
    assert_eq!((i.ip.as_str(), i.port.as_str()), ("40405", "0.0.0.0"));
    let l = ServerInfo::listening("192.168.1.5".to_string());
    assert_eq!((l.ip.as_str(), l.port.as_str()), ("192.168.1.5", "40405"));
}

#[test]
fn ipv6_peers_are_told_apart_by_scope() {
    let mut st = ServerState::new();
    let a = PeerAddr::V6 { ipv6: 1, port: 9, flowinfo: 0, scope_id: 1 };
    let b = PeerAddr::V6 { ipv6: 1, port: 9, flowinfo: 0, scope_id: 2 };
    connect(&mut st, a, "::1", 0);
    assert!(matches!(data(&mut st, 1, 1, 1, b, 1), UdpAction::NoAction));
    assert!(matches!(data(&mut st, 1, 1, 1, a, 1), UdpAction::Input { .. }));
}

#[test]
fn slot_byte_zero_is_detected() {
    let mut buf = [0u8; 1024];
    buf[0] = 0x02;
    assert!(datagram_names_slot_zero(&buf, 2));
    buf[0] = 0x04;
    assert!(datagram_names_slot_zero(&buf, 2));
    buf[0] = 0x01;
    assert!(!datagram_names_slot_zero(&buf, 21));
    assert!(datagram_names_slot_zero(&buf, 22));
    buf[0] = 0x00;
    assert!(!datagram_names_slot_zero(&buf, 1));
    buf[0] = 0x02;
    assert!(!datagram_names_slot_zero(&buf, 0));
    buf[1] = 1;
    assert!(!datagram_names_slot_zero(&buf, 2));
}

#[test]
fn full_list_refuses_any_slot_index() {
    let mut clients: Vec<ClientInfo> = Vec::new();
    for i in 0..4 {
        add_connected_client(&mut clients, "c".to_string(), i);
    }
    assert!(add_connected_client(&mut clients, "d".to_string(), usize::MAX).is_none());
    assert_eq!(clients.len(), 4);
}

#[test]
fn successive_acquisitions_take_distinct_slots() {
    let mut st = ServerState::new();
    acquire_client_slot(&mut st.slots);
    release_client_slot(&mut st, 1);
    acquire_client_slot(&mut st.slots);
    acquire_client_slot(&mut st.slots);
    release_client_slot(&mut st, 1);
    let got: Vec<Option<(usize, usize)>> = (0..4).map(|_| acquire_client_slot(&mut st.slots)).collect();
    assert_eq!(got, vec![Some((0, 1)), Some((2, 3)), Some((3, 4)), None]);
}
