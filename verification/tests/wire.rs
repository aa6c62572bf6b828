use lan_mesh::codec::{encode, decode_frame, frame_payload_len, DecodeError, Message};
use lan_mesh::convdata::{Conversation, ChatMessage, HostInfo, MessageType};
use lan_mesh::MAX_FRAME_LEN;

fn round_trip(m: Message) -> Message {
    let frame = encode(&m);
    let n = frame.len();
    match decode_frame(&frame) {
        Ok(Some((decoded, used))) => {
            assert_eq!(used, n, "whole frame consumed");
            decoded
        }
        other => panic!("decode failed: {:?}", other.map(|o| o.map(|_| ()))),
    }
}

#[test]
fn round_trip_conversation_file() {
    let m = round_trip(Message::ConversationFile {
        name: b"local.json".to_vec(),
        content: b"content|with|pipes and text".to_vec(),
    });
    match m {
        Message::ConversationFile { name, content } => {
            assert_eq!(name, b"local.json".to_vec());
            assert_eq!(content, b"content|with|pipes and text".to_vec());
        }
        _ => panic!("wrong variant"),
    }
}

#[test]
fn round_trip_sync_request() {
    let m = round_trip(Message::SyncRequest);
    assert!(matches!(m, Message::SyncRequest));
}

#[test]
fn round_trip_sync_response() {
    let host = HostInfo {
        hostname: String::from("alpha"),
        ip_address: String::from("192.168.1.2"),
        is_llm_host: true,
    };
    let msg = ChatMessage {
        content: String::from("hello | world: how are you?"),
        timestamp: String::from("2024-05-01T10:00:00+00:00"),
        sender: String::from("user"),
        message_type: MessageType::Question,
        host_info: HostInfo {
            hostname: String::from("alpha"),
            ip_address: String::from("192.168.1.2"),
            is_llm_host: true,
        },
    };
    let conv = Conversation {
        id: String::from("local"),
        messages: vec![msg],
        host_info: host,
    };
    let m = round_trip(Message::SyncResponse { conversations: vec![conv] });
    match m {
        Message::SyncResponse { conversations } => {
            assert_eq!(conversations.len(), 1);
            assert_eq!(conversations[0].id, "local");
            assert_eq!(conversations[0].messages.len(), 1);
            assert_eq!(conversations[0].messages[0].content, "hello | world: how are you?");
            assert!(matches!(conversations[0].messages[0].message_type, MessageType::Question));
            assert!(conversations[0].host_info.is_llm_host);
        }
        _ => panic!("wrong variant"),
    }
}

#[test]
fn round_trip_llm_capability() {
    for flag in [true, false] {
        let m = round_trip(Message::LLMCapability { has_llm: flag });
        match m {
            Message::LLMCapability { has_llm } => assert_eq!(has_llm, flag),
            _ => panic!("wrong variant"),
        }
    }
}

#[test]
fn round_trip_llm_access_request() {
    let m = round_trip(Message::LLMAccessRequest {
        peer_name: b"workstation-7".to_vec(),
        reason: b"Requesting access to LLM services".to_vec(),
    });
    match m {
        Message::LLMAccessRequest { peer_name, reason } => {
            assert_eq!(peer_name, b"workstation-7".to_vec());
            assert_eq!(reason, b"Requesting access to LLM services".to_vec());
        }
        _ => panic!("wrong variant"),
    }
}

#[test]
fn round_trip_llm_access_response_granted() {
    let m = round_trip(Message::LLMAccessResponse {
        granted: true,
        message: b"Access granted".to_vec(),
        llm_host: Some(b"192.168.1.9".to_vec()),
        llm_port: Some(8080),
    });
    match m {
        Message::LLMAccessResponse { granted, message, llm_host, llm_port } => {
            assert!(granted);
            assert_eq!(message, b"Access granted".to_vec());
            assert_eq!(llm_host, Some(b"192.168.1.9".to_vec()));
            assert_eq!(llm_port, Some(8080));
        }
        _ => panic!("wrong variant"),
    }
}

#[test]
fn round_trip_llm_access_response_denied() {
    let m = round_trip(Message::LLMAccessResponse {
        granted: false,
        message: b"LLM not available".to_vec(),
        llm_host: None,
        llm_port: None,
    });
    match m {
        Message::LLMAccessResponse { granted, llm_host, llm_port, .. } => {
            assert!(!granted);
            assert_eq!(llm_host, None);
            assert_eq!(llm_port, None);
        }
        _ => panic!("wrong variant"),
    }
}

#[test]
fn round_trip_file_transfer() {
    // Content starting with digits and holding pipes must come back intact:
    // the boundary follows from the header fields, not from the content.
    let content = b"123|%PDF-1.4|\x00\x01\x02 binary".to_vec();
    let m = round_trip(Message::FileTransfer {
        filename: b"report.pdf".to_vec(),
        file_type: b"application/pdf".to_vec(),
        file_size: 999,
        content: content.clone(),
    });
    match m {
        Message::FileTransfer { filename, file_type, file_size, content: c } => {
            assert_eq!(filename, b"report.pdf".to_vec());
            assert_eq!(file_type, b"application/pdf".to_vec());
            assert_eq!(file_size, 999);
            assert_eq!(c, content);
        }
        _ => panic!("wrong variant"),
    }
}

#[test]
fn round_trip_file_chunk() {
    let content = b"\x00\x00chunk bytes with NULs\x00".to_vec();
    let m = round_trip(Message::FileChunk {
        filename: b"big.bin".to_vec(),
        chunk_index: 3,
        total_chunks: 10,
        content: content.clone(),
    });
    match m {
        Message::FileChunk { filename, chunk_index, total_chunks, content: c } => {
            assert_eq!(filename, b"big.bin".to_vec());
            assert_eq!(chunk_index, 3);
            assert_eq!(total_chunks, 10);
            assert_eq!(c, content);
        }
        _ => panic!("wrong variant"),
    }
}

#[test]
fn round_trip_file_meta() {
    let m = round_trip(Message::FileMeta {
        filename: b"report.pdf".to_vec(),
        file_type: b"application/pdf".to_vec(),
        file_size: 1000,
        sha256_hex: b"aa11bb22".to_vec(),
        uploaded_at: b"2024-05-01T10:00:00+00:00".to_vec(),
        hmac_hex: b"deadbeef".to_vec(),
    });
    match m {
        Message::FileMeta { filename, file_size, sha256_hex, uploaded_at, hmac_hex, .. } => {
            assert_eq!(filename, b"report.pdf".to_vec());
            assert_eq!(file_size, 1000);
            assert_eq!(sha256_hex, b"aa11bb22".to_vec());
            assert_eq!(uploaded_at, b"2024-05-01T10:00:00+00:00".to_vec());
            assert_eq!(hmac_hex, b"deadbeef".to_vec());
        }
        _ => panic!("wrong variant"),
    }
}

#[test]
fn encoded_frame_layout_is_exact() {
    let frame = encode(&Message::LLMCapability { has_llm: true });
    let mut expected = b"LLMC:".to_vec();
    expected.extend_from_slice(&4u64.to_le_bytes());
    expected.extend_from_slice(b"true");
    assert_eq!(frame, expected);
}

#[test]
fn oversized_length_rejected_before_payload() {
    // A frame header declaring more than the 50 MB ceiling, with no payload
    // behind it at all: the ceiling verdict comes without looking at (or
    // for) any payload byte, so this is TooLarge, never Truncated.
    let mut buf = b"FTRS:".to_vec();
    buf.extend_from_slice(&(MAX_FRAME_LEN + 1).to_le_bytes());
    assert_eq!(decode_frame(&buf).unwrap_err(), DecodeError::TooLarge);
    let len_field = (MAX_FRAME_LEN + 1).to_le_bytes().to_vec();
    assert_eq!(frame_payload_len(&len_field).unwrap_err(), DecodeError::TooLarge);
    let fine = 42u64.to_le_bytes().to_vec();
    assert_eq!(frame_payload_len(&fine).unwrap(), 42);
}

#[test]
fn empty_buffer_is_clean_end_of_stream() {
    let buf: Vec<u8> = Vec::new();
    assert!(matches!(decode_frame(&buf), Ok(None)));
}

#[test]
fn truncated_frame_is_rejected() {
    let buf = b"LLMC:".to_vec();
    assert_eq!(decode_frame(&buf).unwrap_err(), DecodeError::Truncated);
    let mut buf2 = b"LLMC:".to_vec();
    buf2.extend_from_slice(&10u64.to_le_bytes());
    buf2.extend_from_slice(b"tru");
    assert_eq!(decode_frame(&buf2).unwrap_err(), DecodeError::Truncated);
}

#[test]
fn unknown_marker_is_rejected() {
    let mut buf = b"XXXX:".to_vec();
    buf.extend_from_slice(&0u64.to_le_bytes());
    assert_eq!(decode_frame(&buf).unwrap_err(), DecodeError::UnknownMarker);
}

#[test]
fn capability_payload_is_strict() {
    let mut buf = b"LLMC:".to_vec();
    buf.extend_from_slice(&5u64.to_le_bytes());
    buf.extend_from_slice(b"maybe");
    assert_eq!(decode_frame(&buf).unwrap_err(), DecodeError::Malformed);
}

#[test]
fn access_response_field_count_is_strict() {
    // Five fields instead of four.
    let payload = b"true|ok|host|8080|extra".to_vec();
    let mut buf = b"LRES:".to_vec();
    buf.extend_from_slice(&(payload.len() as u64).to_le_bytes());
    buf.extend_from_slice(&payload);
    assert_eq!(decode_frame(&buf).unwrap_err(), DecodeError::Malformed);
}

#[test]
fn access_response_port_must_be_a_port() {
    for bad in ["true|ok|host|65536", "true|ok|host|12ab"] {
        let payload = bad.as_bytes().to_vec();
        let mut buf = b"LRES:".to_vec();
        buf.extend_from_slice(&(payload.len() as u64).to_le_bytes());
        buf.extend_from_slice(&payload);
        assert_eq!(decode_frame(&buf).unwrap_err(), DecodeError::Malformed);
    }
}

#[test]
fn transfer_size_field_must_be_numeric() {
    // 2^64 does not fit, and letters are no size at all.
    for bad in &[&b"f|t|18446744073709551616"[..], &b"f|t|12a3"[..]] {
        let mut buf = b"FMTA:".to_vec();
        let payload = [&bad[..], b"|s|u|h"].concat();
        buf.extend_from_slice(&(payload.len() as u64).to_le_bytes());
        buf.extend_from_slice(&payload);
        assert_eq!(decode_frame(&buf).unwrap_err(), DecodeError::Malformed);
    }
}

#[test]
fn file_format_needs_its_delimiter() {
    let payload = b"no-delimiter-here".to_vec();
    let mut buf = b"FILE:".to_vec();
    buf.extend_from_slice(&(payload.len() as u64).to_le_bytes());
    buf.extend_from_slice(&payload);
    assert_eq!(decode_frame(&buf).unwrap_err(), DecodeError::Malformed);
}
