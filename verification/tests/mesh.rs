use lan_mesh::codec::{encode, decode_frame, Message};
use lan_mesh::connection::{MeshState, Action, build_access_request, build_capability_message,
    build_sync_request, handshake_messages, periodic_share_messages};
use lan_mesh::convdata::{Conversation, HostInfo};
use lan_mesh::discovery::{encode_announcement, parse_announcement, process_announcement};
use lan_mesh::filedist::build_file_announcement;
use lan_mesh::llm::local_ollama_base;
use lan_mesh::registry::DebounceTable;
use lan_mesh::DEBOUNCE_WINDOW_SECS;

fn now() -> String {
    String::from("2024-05-01T10:00:00+00:00")
}

/// Feeds a message to a node the way its receive loop would: through the
/// wire, decoded, then dispatched.
fn deliver(node: &mut MeshState, from: &str, m: &Message, inbound: bool) -> Vec<Action> {
    let frame = encode(m);
    let (decoded, used) = decode_frame(&frame).expect("framing").expect("one message");
    assert_eq!(used, frame.len());
    node.handle_message(&from.to_string(), decoded, inbound, &now())
}

#[test]
fn handshake_authorizes_exactly_one_direction() {
    // Node A (192.168.1.10) has a model; node B (192.168.1.20) has none and
    // dialed A, so B's loop is the outbound one and A's the inbound one.
    let mut a = MeshState::new();
    let mut b = MeshState::new();

    // B announces no capability to A; A announces capability to B.
    let acts = deliver(&mut a, "192.168.1.20", &build_capability_message(false), true);
    assert!(acts.is_empty());
    let acts = deliver(&mut b, "192.168.1.10", &build_capability_message(true), false);
    assert_eq!(acts.len(), 1);
    assert!(matches!(acts[0], Action::RequestAccess));

    // B sends its request; A's loop hands it back as a probe demand.
    let req = build_access_request(b"node-b".to_vec(), b"Requesting access to LLM services".to_vec())
        .expect("clean name");
    let acts = deliver(&mut a, "192.168.1.20", &req, true);
    assert_eq!(acts.len(), 1);
    match &acts[0] {
        Action::ProbeAndRespond { peer_name, .. } => assert_eq!(peer_name, &b"node-b".to_vec()),
        _ => panic!("expected a probe demand"),
    }

    // A probes its model (reachable) and answers with its own endpoint.
    let response =
        a.grant_llm_access(&String::from("192.168.1.20"), true, &b"192.168.1.10".to_vec(), 8080);
    let acts = deliver(&mut b, "192.168.1.10", &response, false);
    assert!(acts.is_empty());

    // B now holds A's grant and endpoint.
    assert!(b.authorized.contains(&String::from("192.168.1.10")));
    let (host, port) = b.llm_connections.get(&String::from("192.168.1.10")).expect("routed");
    assert_eq!(host, "192.168.1.10");
    assert_eq!(port, 8080);

    // A's own tables gained nothing about B from the exchange: nobody
    // authorized A, and A routes to no one.
    assert!(!a.authorized.contains(&String::from("192.168.1.20")));
    assert!(a.llm_connections.get(&String::from("192.168.1.20")).is_none());
    // What A did record is that it granted B access.
    assert!(a.granted_to.contains(&String::from("192.168.1.20")));
}

#[test]
fn denial_leaves_peer_unauthorized() {
    let mut a = MeshState::new();
    let mut b = MeshState::new();
    let response =
        a.grant_llm_access(&String::from("192.168.1.20"), false, &b"192.168.1.10".to_vec(), 8080);
    match &response {
        Message::LLMAccessResponse { granted, llm_host, llm_port, .. } => {
            assert!(!granted);
            assert!(llm_host.is_none() && llm_port.is_none());
        }
        _ => panic!("wrong variant"),
    }
    assert!(!a.granted_to.contains(&String::from("192.168.1.20")));
    deliver(&mut b, "192.168.1.10", &response, false);
    assert!(!b.authorized.contains(&String::from("192.168.1.10")));
    assert!(b.llm_connections.get(&String::from("192.168.1.10")).is_none());
}

#[test]
fn end_to_end_file_distribution() {
    // Node A uploads report.pdf; both nodes share the secret S.
    let secret = b"S".to_vec();
    let mut a = MeshState::new();
    let mut b = MeshState::new();
    a.set_p2p_secret(secret.clone());
    b.set_p2p_secret(secret.clone());

    let content = vec![7u8; 1000];
    let (meta, transfer) = build_file_announcement(
        b"report.pdf".to_vec(),
        b"application/pdf".to_vec(),
        content.clone(),
        &Some(secret),
        b"2024-05-01T10:00:00+00:00".to_vec(),
    )
    .expect("clean fields");

    // B receives the metadata, recomputes the signature, matches it, and
    // records the descriptor; then the transfer arrives and is persisted.
    let acts = deliver(&mut b, "192.168.1.10", &meta, true);
    assert!(acts.is_empty());
    let acts = deliver(&mut b, "192.168.1.10", &transfer, true);
    assert_eq!(acts.len(), 1);
    match &acts[0] {
        Action::SaveFile { filename, content: c } => {
            assert_eq!(filename, &b"report.pdf".to_vec());
            assert_eq!(c.len(), 1000);
        }
        _ => panic!("expected a save demand"),
    }

    let files = b.get_announced_files();
    assert_eq!(files.len(), 1);
    assert_eq!(files[0].filename, "report.pdf");
    assert_eq!(files[0].file_size, 1000);
    assert_eq!(files[0].uploader_ip, "192.168.1.10");
}

#[test]
fn forged_metadata_is_dropped() {
    let mut b = MeshState::new();
    b.set_p2p_secret(b"S".to_vec());
    let meta = Message::FileMeta {
        filename: b"report.pdf".to_vec(),
        file_type: b"application/pdf".to_vec(),
        file_size: 1000,
        sha256_hex: b"aa".to_vec(),
        uploaded_at: b"2024-05-01T10:00:00+00:00".to_vec(),
        hmac_hex: b"0000".to_vec(),
    };
    let acts = deliver(&mut b, "192.168.1.10", &meta, true);
    // The mismatch is no reason to tear the connection down, but the
    // untrusted descriptor is not recorded.
    assert!(acts.is_empty());
    assert!(b.get_announced_files().is_empty());
}

#[test]
fn metadata_without_secret_is_taken_at_its_word() {
    let mut b = MeshState::new();
    let meta = Message::FileMeta {
        filename: b"notes.txt".to_vec(),
        file_type: b"text/plain".to_vec(),
        file_size: 12,
        sha256_hex: b"aa".to_vec(),
        uploaded_at: b"2024-05-01T10:00:00+00:00".to_vec(),
        hmac_hex: b"".to_vec(),
    };
    deliver(&mut b, "192.168.1.10", &meta, true);
    assert_eq!(b.get_announced_files().len(), 1);
}

#[test]
fn end_to_end_discovery_to_routing() {
    // Node C (192.168.1.30) broadcasts with capability; node D has no model.
    let mut d = MeshState::new();
    let mut c = MeshState::new();
    let mut seen = DebounceTable::new();

    let datagram = encode_announcement(true, &b"2024-05-01T10:00:00+00:00".to_vec());
    let (has_llm, _) = parse_announcement(&datagram).expect("announcement");
    assert!(has_llm);

    // D has not seen C: the source is passed to the connector.
    assert!(process_announcement(&mut seen, &String::from("192.168.1.30"), false, 1000,
        DEBOUNCE_WINDOW_SECS));
    // The connector claims C and dials.
    assert!(d.dial_claim(&String::from("192.168.1.30")));

    // Handshake: C announces capability on D's outbound loop; D asks; C
    // (still reachable) grants with its own address and port.
    let acts = deliver(&mut d, "192.168.1.30", &build_capability_message(true), false);
    assert!(matches!(acts[0], Action::RequestAccess));
    let req = build_access_request(b"node-d".to_vec(), b"Requesting access to LLM services".to_vec())
        .expect("clean name");
    let acts = deliver(&mut c, "192.168.1.40", &req, true);
    assert_eq!(acts.len(), 1);
    let grant =
        c.grant_llm_access(&String::from("192.168.1.40"), true, &b"192.168.1.30".to_vec(), 8080);
    deliver(&mut d, "192.168.1.30", &grant, false);

    let (host, port) = d.llm_connections.get(&String::from("192.168.1.30")).expect("routed");
    assert_eq!(host, "192.168.1.30");
    assert_eq!(port, 8080);
}

#[test]
fn dial_claim_prevents_duplicate_attempts() {
    let mut s = MeshState::new();
    let ip = String::from("192.168.1.9");
    assert!(s.dial_claim(&ip));
    // A second trigger while dialed-or-dialing is refused.
    assert!(!s.dial_claim(&ip));
    // A failed connect releases the claim; the next tick may retry.
    s.dial_release(&ip);
    assert!(s.dial_claim(&ip));
}

#[test]
fn teardown_invalidates_claim_and_handle_together() {
    let mut s = MeshState::new();
    let ip = String::from("192.168.1.9");
    assert!(s.dial_claim(&ip));
    s.register_broadcast_handle(ip.clone(), 41);
    assert_eq!(s.handles.get(&ip), Some(41));
    s.teardown_peer(&ip);
    assert!(s.handles.get(&ip).is_none());
    // The peer can be claimed afresh on the next discovery tick.
    assert!(s.dial_claim(&ip));
}

#[test]
fn capability_announcements_update_peer_set() {
    let mut s = MeshState::new();
    deliver(&mut s, "192.168.1.9", &build_capability_message(true), true);
    assert!(s.llm_peers.contains(&String::from("192.168.1.9")));
    deliver(&mut s, "192.168.1.9", &build_capability_message(false), true);
    assert!(!s.llm_peers.contains(&String::from("192.168.1.9")));
}

#[test]
fn inbound_loop_never_requests_access() {
    let mut s = MeshState::new();
    let acts = deliver(&mut s, "192.168.1.9", &build_capability_message(true), true);
    assert!(acts.is_empty());
}

#[test]
fn authorized_peer_is_not_asked_again() {
    let mut s = MeshState::new();
    let grant = Message::LLMAccessResponse {
        granted: true,
        message: b"Access granted".to_vec(),
        llm_host: Some(b"192.168.1.9".to_vec()),
        llm_port: Some(8080),
    };
    deliver(&mut s, "192.168.1.9", &grant, false);
    let acts = deliver(&mut s, "192.168.1.9", &build_capability_message(true), false);
    assert!(acts.is_empty());
}

#[test]
fn handshake_and_share_sequences() {
    let conv = Conversation {
        id: String::from("local"),
        messages: Vec::new(),
        host_info: HostInfo {
            hostname: String::from("alpha"),
            ip_address: String::from("192.168.1.2"),
            is_llm_host: false,
        },
    };
    let ms = handshake_messages(true, Some(&conv)).expect("fits");
    assert_eq!(ms.len(), 2);
    assert!(matches!(ms[0], Message::LLMCapability { has_llm: true }));
    assert!(matches!(&ms[1], Message::ConversationFile { .. }));
    let ms = handshake_messages(false, None).expect("fits");
    assert_eq!(ms.len(), 1);

    let ms = periodic_share_messages(Some(&conv)).expect("fits");
    assert_eq!(ms.len(), 2);
    assert!(matches!(&ms[0], Message::ConversationFile { .. }));
    assert!(matches!(ms[1], Message::SyncRequest));
    let ms = periodic_share_messages(None).expect("fits");
    assert_eq!(ms.len(), 1);
    assert!(matches!(ms[0], Message::SyncRequest));
    let _ = build_sync_request();
}

#[test]
fn received_snapshot_overwrites_peer_entry() {
    let mut s = MeshState::new();
    let conv = Conversation {
        id: String::from("theirs"),
        messages: Vec::new(),
        host_info: HostInfo {
            hostname: String::from("beta"),
            ip_address: String::from("192.168.1.9"),
            is_llm_host: false,
        },
    };
    let m = lan_mesh::connection::build_conversation_file(&conv).expect("fits");
    let acts = deliver(&mut s, "192.168.1.9", &m, true);
    assert_eq!(acts.len(), 1);
    match &acts[0] {
        Action::SaveConversation { name, .. } => assert_eq!(name, &b"local.json".to_vec()),
        _ => panic!("expected a save demand"),
    }
    let peers = s.conversations.get_peer_conversations();
    assert_eq!(peers.len(), 1);
    assert_eq!(peers[0].0, "192.168.1.9");
    assert_eq!(peers[0].1.id, "theirs");
}

#[test]
fn local_model_base_address() {
    assert_eq!(local_ollama_base(), "http://127.0.0.1:11434");
}
