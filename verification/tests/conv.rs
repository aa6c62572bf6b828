use lan_mesh::convdata::{Conversation, ChatMessage, HostInfo, MessageType, ConversationStore};
use lan_mesh::convcodec::{encode_conversations, decode_conversations, conversation_to_bytes,
    conversation_from_bytes};

fn host(name: &str, ip: &str, llm: bool) -> HostInfo {
    HostInfo { hostname: name.to_string(), ip_address: ip.to_string(), is_llm_host: llm }
}

fn chat(content: &str, sender: &str, t: MessageType) -> ChatMessage {
    ChatMessage {
        content: content.to_string(),
        timestamp: String::from("2024-05-01T10:00:00+00:00"),
        sender: sender.to_string(),
        message_type: t,
        host_info: host("alpha", "192.168.1.2", false),
    }
}

fn conv(id: &str, messages: Vec<ChatMessage>) -> Conversation {
    Conversation { id: id.to_string(), messages, host_info: host("alpha", "192.168.1.2", false) }
}

#[test]
fn conversation_bytes_round_trip() {
    let c = conv(
        "local",
        vec![
            chat("question with : and | and 123 digits", "user", MessageType::Question),
            chat("", "LLM", MessageType::Response),
        ],
    );
    let bytes = conversation_to_bytes(&c);
    let back = conversation_from_bytes(&bytes).expect("round trip");
    assert_eq!(back.id, "local");
    assert_eq!(back.messages.len(), 2);
    assert_eq!(back.messages[0].content, "question with : and | and 123 digits");
    assert!(matches!(back.messages[1].message_type, MessageType::Response));
    assert_eq!(back.messages[1].content, "");
    assert_eq!(back.host_info.ip_address, "192.168.1.2");
}

#[test]
fn conversation_list_round_trip() {
    let cs = vec![
        conv("local", vec![chat("hi", "u", MessageType::Question)]),
        conv("other", vec![]),
    ];
    let bytes = encode_conversations(&cs);
    let back = decode_conversations(&bytes).expect("round trip");
    assert_eq!(back.len(), 2);
    assert_eq!(back[0].id, "local");
    assert_eq!(back[0].messages.len(), 1);
    assert_eq!(back[1].id, "other");
    assert_eq!(back[1].messages.len(), 0);
}

#[test]
fn empty_conversation_list_round_trip() {
    let cs: Vec<Conversation> = Vec::new();
    let bytes = encode_conversations(&cs);
    assert_eq!(bytes, b"0:".to_vec());
    let back = decode_conversations(&bytes).expect("round trip");
    assert!(back.is_empty());
}

#[test]
fn conversation_list_rejects_trailing_bytes() {
    let cs = vec![conv("local", vec![])];
    let mut bytes = encode_conversations(&cs);
    bytes.push(b'x');
    assert!(decode_conversations(&bytes).is_none());
}

#[test]
fn conversation_bytes_reject_garbage() {
    assert!(conversation_from_bytes(&b"not a snapshot".to_vec()).is_none());
    assert!(conversation_from_bytes(&Vec::new()).is_none());
}

#[test]
fn store_last_snapshot_wins() {
    let mut store = ConversationStore::new();
    store.add_peer_conversation(
        String::from("192.168.1.5"),
        conv("first", vec![chat("one", "u", MessageType::Question)]),
    );
    store.add_peer_conversation(
        String::from("192.168.1.5"),
        conv("second", vec![]),
    );
    let peers = store.get_peer_conversations();
    assert_eq!(peers.len(), 1);
    assert_eq!(peers[0].0, "192.168.1.5");
    assert_eq!(peers[0].1.id, "second");
    assert_eq!(peers[0].1.messages.len(), 0);
}

#[test]
fn store_add_message_creates_then_appends() {
    let mut store = ConversationStore::new();
    assert!(store.get_local_conversation().is_none());
    let me = host("alpha", "192.168.1.2", false);
    store.add_message(
        &String::from("local"),
        chat("first", "user", MessageType::Question),
        me,
    );
    let local = store.get_local_conversation().expect("created");
    assert_eq!(local.id, "local");
    assert_eq!(local.messages.len(), 1);
    assert_eq!(local.host_info.hostname, "alpha");
    let me2 = host("alpha", "192.168.1.2", false);
    store.add_message(
        &String::from("local"),
        chat("second", "LLM", MessageType::Response),
        me2,
    );
    let local = store.get_local_conversation().expect("kept");
    assert_eq!(local.messages.len(), 2);
    assert_eq!(local.messages[1].content, "second");
}

#[test]
fn store_ignores_other_identities() {
    let mut store = ConversationStore::new();
    store.add_message(
        &String::from("guest"),
        chat("hi", "user", MessageType::Question),
        host("alpha", "192.168.1.2", false),
    );
    assert!(store.get_local_conversation().is_none());
}
