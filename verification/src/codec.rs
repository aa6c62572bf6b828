//! The wire codec: nine message variants framed as a 5-byte ASCII marker, an
//! 8-byte little-endian payload length, and the payload itself. Pipe-joined
//! text fields must not contain the delimiter; the framing then decodes to
//! exactly the message that was encoded.

use vstd::prelude::*;
use vstd::bytes::{spec_u64_to_le_bytes, spec_u64_from_le_bytes, u64_to_le_bytes,
    u64_from_le_bytes, lemma_auto_spec_u64_to_from_le_bytes};
use crate::convdata::{Conversation, SpecConversation};
use crate::convcodec::{spec_enc_conv_list, spec_parse_conv_list, lemma_conv_list_round_trip,
    encode_conversations, decode_conversations, conv_views};
use crate::byteseq::{has_no_byte, find_byte, lemma_find_byte_concat, lemma_find_byte_absent,
    find_byte_in, append_bytes, bytes_range};
use crate::numtext::{all_digits, dec_value, dec_digits, lemma_dec_digits, u64_to_dec,
    parse_u64_dec, lemma_digits_have_no_delims};
use crate::MAX_FRAME_LEN;

verus! {

/// ASCII code of '|', the field delimiter.
pub const PIPE: u8 = 124;

/// ASCII code of NUL, the header/chunk boundary of a file chunk.
pub const NUL: u8 = 0;

/// Why a frame or payload was rejected. Every value is fatal to its
/// connection.
#[derive(Clone, Copy, PartialEq, Eq, Structural, Debug)]
pub enum DecodeError {
    /// The length field exceeds the 50 MB ceiling.
    TooLarge,
    /// The five marker bytes name no known variant.
    UnknownMarker,
    /// Wrong field count, a non-numeric numeric field, or undecodable text.
    Malformed,
    /// The buffer ends inside a frame.
    Truncated,
}

/// One wire message.
#[derive(Debug)]
pub enum Message {
    ConversationFile { name: Vec<u8>, content: Vec<u8> },
    SyncRequest,
    SyncResponse { conversations: Vec<Conversation> },
    LLMCapability { has_llm: bool },
    LLMAccessRequest { peer_name: Vec<u8>, reason: Vec<u8> },
    LLMAccessResponse {
        granted: bool,
        message: Vec<u8>,
        llm_host: Option<Vec<u8>>,
        llm_port: Option<u16>,
    },
    FileTransfer { filename: Vec<u8>, file_type: Vec<u8>, file_size: u64, content: Vec<u8> },
    FileChunk { filename: Vec<u8>, chunk_index: u32, total_chunks: u32, content: Vec<u8> },
    FileMeta {
        filename: Vec<u8>,
        file_type: Vec<u8>,
        file_size: u64,
        sha256_hex: Vec<u8>,
        uploaded_at: Vec<u8>,
        hmac_hex: Vec<u8>,
    },
}

/// Mathematical model of a `Message`.
pub enum SpecMessage {
    ConversationFile { name: Seq<u8>, content: Seq<u8> },
    SyncRequest,
    SyncResponse { conversations: Seq<SpecConversation> },
    LLMCapability { has_llm: bool },
    LLMAccessRequest { peer_name: Seq<u8>, reason: Seq<u8> },
    LLMAccessResponse {
        granted: bool,
        message: Seq<u8>,
        llm_host: Option<Seq<u8>>,
        llm_port: Option<u16>,
    },
    FileTransfer { filename: Seq<u8>, file_type: Seq<u8>, file_size: u64, content: Seq<u8> },
    FileChunk { filename: Seq<u8>, chunk_index: u32, total_chunks: u32, content: Seq<u8> },
    FileMeta {
        filename: Seq<u8>,
        file_type: Seq<u8>,
        file_size: u64,
        sha256_hex: Seq<u8>,
        uploaded_at: Seq<u8>,
        hmac_hex: Seq<u8>,
    },
}

impl View for Message {
    type V = SpecMessage;

    open spec fn view(&self) -> SpecMessage {
        match self {
            Message::ConversationFile { name, content } => SpecMessage::ConversationFile {
                name: name@,
                content: content@,
            },
            Message::SyncRequest => SpecMessage::SyncRequest,
            Message::SyncResponse { conversations } => SpecMessage::SyncResponse {
                conversations: conv_views(conversations@),
            },
            Message::LLMCapability { has_llm } => SpecMessage::LLMCapability { has_llm: *has_llm },
            Message::LLMAccessRequest { peer_name, reason } => SpecMessage::LLMAccessRequest {
                peer_name: peer_name@,
                reason: reason@,
            },
            Message::LLMAccessResponse { granted, message, llm_host, llm_port } => {
                SpecMessage::LLMAccessResponse {
                    granted: *granted,
                    message: message@,
                    llm_host: match llm_host {
                        Some(h) => Some(h@),
                        None => None,
                    },
                    llm_port: *llm_port,
                }
            },
            Message::FileTransfer { filename, file_type, file_size, content } => {
                SpecMessage::FileTransfer {
                    filename: filename@,
                    file_type: file_type@,
                    file_size: *file_size,
                    content: content@,
                }
            },
            Message::FileChunk { filename, chunk_index, total_chunks, content } => {
                SpecMessage::FileChunk {
                    filename: filename@,
                    chunk_index: *chunk_index,
                    total_chunks: *total_chunks,
                    content: content@,
                }
            },
            Message::FileMeta {
                filename,
                file_type,
                file_size,
                sha256_hex,
                uploaded_at,
                hmac_hex,
            } => SpecMessage::FileMeta {
                filename: filename@,
                file_type: file_type@,
                file_size: *file_size,
                sha256_hex: sha256_hex@,
                uploaded_at: uploaded_at@,
                hmac_hex: hmac_hex@,
            },
        }
    }
}

// ---------------------------------------------------------------------------
// Markers
// ---------------------------------------------------------------------------
/// "FILE:".
pub open spec fn marker_file() -> Seq<u8> {
    seq![70u8, 73u8, 76u8, 69u8, 58u8]
}

/// "SYNC:".
pub open spec fn marker_sync() -> Seq<u8> {
    seq![83u8, 89u8, 78u8, 67u8, 58u8]
}

/// "RESP:".
pub open spec fn marker_resp() -> Seq<u8> {
    seq![82u8, 69u8, 83u8, 80u8, 58u8]
}

/// "LLMC:".
pub open spec fn marker_llmc() -> Seq<u8> {
    seq![76u8, 76u8, 77u8, 67u8, 58u8]
}

/// "LREQ:".
pub open spec fn marker_lreq() -> Seq<u8> {
    seq![76u8, 82u8, 69u8, 81u8, 58u8]
}

/// "LRES:".
pub open spec fn marker_lres() -> Seq<u8> {
    seq![76u8, 82u8, 69u8, 83u8, 58u8]
}

/// "FTRS:".
pub open spec fn marker_ftrs() -> Seq<u8> {
    seq![70u8, 84u8, 82u8, 83u8, 58u8]
}

/// "CHNK:".
pub open spec fn marker_chnk() -> Seq<u8> {
    seq![67u8, 72u8, 78u8, 75u8, 58u8]
}

/// "FMTA:".
pub open spec fn marker_fmta() -> Seq<u8> {
    seq![70u8, 77u8, 84u8, 65u8, 58u8]
}

/// The marker of a message's variant.
pub open spec fn spec_marker(m: SpecMessage) -> Seq<u8> {
    match m {
        SpecMessage::ConversationFile { .. } => marker_file(),
        SpecMessage::SyncRequest => marker_sync(),
        SpecMessage::SyncResponse { .. } => marker_resp(),
        SpecMessage::LLMCapability { .. } => marker_llmc(),
        SpecMessage::LLMAccessRequest { .. } => marker_lreq(),
        SpecMessage::LLMAccessResponse { .. } => marker_lres(),
        SpecMessage::FileTransfer { .. } => marker_ftrs(),
        SpecMessage::FileChunk { .. } => marker_chnk(),
        SpecMessage::FileMeta { .. } => marker_fmta(),
    }
}

// ---------------------------------------------------------------------------
// Payloads
// ---------------------------------------------------------------------------
/// "true" or "false" as bytes.
pub open spec fn bool_text(b: bool) -> Seq<u8> {
    if b {
        seq![116u8, 114u8, 117u8, 101u8]
    } else {
        seq![102u8, 97u8, 108u8, 115u8, 101u8]
    }
}

/// An optional host as bytes: absent is empty.
pub open spec fn opt_host_bytes(h: Option<Seq<u8>>) -> Seq<u8> {
    match h {
        Some(b) => b,
        None => Seq::empty(),
    }
}

/// An optional port as decimal text: absent is empty.
pub open spec fn opt_port_bytes(p: Option<u16>) -> Seq<u8> {
    match p {
        Some(v) => dec_digits(v as nat),
        None => Seq::empty(),
    }
}

/// The payload bytes of a message.
pub open spec fn spec_payload(m: SpecMessage) -> Seq<u8> {
    match m {
        SpecMessage::ConversationFile { name, content } => name + seq![PIPE] + content,
        SpecMessage::SyncRequest => Seq::empty(),
        SpecMessage::SyncResponse { conversations } => spec_enc_conv_list(conversations),
        SpecMessage::LLMCapability { has_llm } => bool_text(has_llm),
        SpecMessage::LLMAccessRequest { peer_name, reason } => peer_name + seq![PIPE] + reason,
        SpecMessage::LLMAccessResponse { granted, message, llm_host, llm_port } => bool_text(
            granted,
        ) + seq![PIPE] + message + seq![PIPE] + opt_host_bytes(llm_host) + seq![PIPE]
            + opt_port_bytes(llm_port),
        SpecMessage::FileTransfer { filename, file_type, file_size, content } => filename
            + seq![PIPE] + file_type + seq![PIPE] + dec_digits(file_size as nat) + seq![PIPE]
            + content,
        SpecMessage::FileChunk { filename, chunk_index, total_chunks, content } => filename
            + seq![PIPE] + dec_digits(chunk_index as nat) + seq![PIPE] + dec_digits(
            total_chunks as nat,
        ) + seq![NUL] + content,
        SpecMessage::FileMeta {
            filename,
            file_type,
            file_size,
            sha256_hex,
            uploaded_at,
            hmac_hex,
        } => filename + seq![PIPE] + file_type + seq![PIPE] + dec_digits(file_size as nat)
            + seq![PIPE] + sha256_hex + seq![PIPE] + uploaded_at + seq![PIPE] + hmac_hex,
    }
}

/// A message the codec promises to carry faithfully: pipe-joined fields hold
/// no delimiter, a chunk's filename no NUL, an absent host is never written
/// as an empty present one, and the payload respects the frame ceiling.
pub open spec fn wf_message(m: SpecMessage) -> bool {
    &&& match m {
        SpecMessage::ConversationFile { name, .. } => has_no_byte(name, PIPE),
        SpecMessage::SyncRequest => true,
        SpecMessage::SyncResponse { .. } => true,
        SpecMessage::LLMCapability { .. } => true,
        SpecMessage::LLMAccessRequest { peer_name, .. } => has_no_byte(peer_name, PIPE),
        SpecMessage::LLMAccessResponse { message, llm_host, .. } => {
            &&& has_no_byte(message, PIPE)
            &&& match llm_host {
                Some(h) => has_no_byte(h, PIPE) && h.len() > 0,
                None => true,
            }
        },
        SpecMessage::FileTransfer { filename, file_type, .. } => {
            &&& has_no_byte(filename, PIPE)
            &&& has_no_byte(file_type, PIPE)
        },
        SpecMessage::FileChunk { filename, .. } => {
            &&& has_no_byte(filename, PIPE)
            &&& has_no_byte(filename, NUL)
        },
        SpecMessage::FileMeta {
            filename,
            file_type,
            sha256_hex,
            uploaded_at,
            hmac_hex,
            ..
        } => {
            &&& has_no_byte(filename, PIPE)
            &&& has_no_byte(file_type, PIPE)
            &&& has_no_byte(sha256_hex, PIPE)
            &&& has_no_byte(uploaded_at, PIPE)
            &&& has_no_byte(hmac_hex, PIPE)
        },
    }
    &&& spec_payload(m).len() <= MAX_FRAME_LEN
}

/// A whole frame: marker, length, payload.
pub open spec fn spec_encode(m: SpecMessage) -> Seq<u8> {
    spec_marker(m) + spec_u64_to_le_bytes(spec_payload(m).len() as u64) + spec_payload(m)
}

// ---------------------------------------------------------------------------
// Decoding, per variant
// ---------------------------------------------------------------------------
/// `name|content`: the first pipe splits; the name is everything before it.
pub open spec fn spec_parse_file(p: Seq<u8>) -> Result<SpecMessage, DecodeError> {
    match find_byte(p, PIPE) {
        None => Err(DecodeError::Malformed),
        Some(i) => Ok(
            SpecMessage::ConversationFile {
                name: p.subrange(0, i),
                content: p.subrange(i + 1, p.len() as int),
            },
        ),
    }
}

/// A structured-text conversation list.
pub open spec fn spec_parse_resp(p: Seq<u8>) -> Result<SpecMessage, DecodeError> {
    match spec_parse_conv_list(p) {
        None => Err(DecodeError::Malformed),
        Some(cs) => Ok(SpecMessage::SyncResponse { conversations: cs }),
    }
}

/// Exactly the text "true" or "false".
pub open spec fn spec_parse_llmc(p: Seq<u8>) -> Result<SpecMessage, DecodeError> {
    if p == bool_text(true) {
        Ok(SpecMessage::LLMCapability { has_llm: true })
    } else if p == bool_text(false) {
        Ok(SpecMessage::LLMCapability { has_llm: false })
    } else {
        Err(DecodeError::Malformed)
    }
}

/// `peer_name|reason`.
pub open spec fn spec_parse_lreq(p: Seq<u8>) -> Result<SpecMessage, DecodeError> {
    match find_byte(p, PIPE) {
        None => Err(DecodeError::Malformed),
        Some(i) => Ok(
            SpecMessage::LLMAccessRequest {
                peer_name: p.subrange(0, i),
                reason: p.subrange(i + 1, p.len() as int),
            },
        ),
    }
}

/// `granted|message|host|port`, exactly four fields; empty host or port
/// means absent.
pub open spec fn spec_parse_lres(p: Seq<u8>) -> Result<SpecMessage, DecodeError> {
    match find_byte(p, PIPE) {
        None => Err(DecodeError::Malformed),
        Some(i0) => {
            let granted_txt = p.subrange(0, i0);
            let r1 = p.subrange(i0 + 1, p.len() as int);
            match find_byte(r1, PIPE) {
                None => Err(DecodeError::Malformed),
                Some(i1) => {
                    let message = r1.subrange(0, i1);
                    let r2 = r1.subrange(i1 + 1, r1.len() as int);
                    match find_byte(r2, PIPE) {
                        None => Err(DecodeError::Malformed),
                        Some(i2) => {
                            let host_b = r2.subrange(0, i2);
                            let r3 = r2.subrange(i2 + 1, r2.len() as int);
                            if find_byte(r3, PIPE) is Some {
                                Err(DecodeError::Malformed)
                            } else if granted_txt != bool_text(true) && granted_txt != bool_text(
                                false,
                            ) {
                                Err(DecodeError::Malformed)
                            } else if r3.len() > 0 && !(all_digits(r3) && dec_value(r3) <= 65535) {
                                Err(DecodeError::Malformed)
                            } else {
                                Ok(
                                    SpecMessage::LLMAccessResponse {
                                        granted: granted_txt == bool_text(true),
                                        message,
                                        llm_host: if host_b.len() > 0 {
                                            Some(host_b)
                                        } else {
                                            None
                                        },
                                        llm_port: if r3.len() > 0 {
                                            Some(dec_value(r3) as u16)
                                        } else {
                                            None
                                        },
                                    },
                                )
                            }
                        },
                    }
                },
            }
        },
    }
}

/// `filename|type|size|` then the raw content: the boundary follows from the
/// three header fields' lengths.
pub open spec fn spec_parse_ftrs(p: Seq<u8>) -> Result<SpecMessage, DecodeError> {
    match find_byte(p, PIPE) {
        None => Err(DecodeError::Malformed),
        Some(i0) => {
            let filename = p.subrange(0, i0);
            let r1 = p.subrange(i0 + 1, p.len() as int);
            match find_byte(r1, PIPE) {
                None => Err(DecodeError::Malformed),
                Some(i1) => {
                    let file_type = r1.subrange(0, i1);
                    let r2 = r1.subrange(i1 + 1, r1.len() as int);
                    match find_byte(r2, PIPE) {
                        None => Err(DecodeError::Malformed),
                        Some(i2) => {
                            let size_txt = r2.subrange(0, i2);
                            let content = r2.subrange(i2 + 1, r2.len() as int);
                            if size_txt.len() >= 1 && all_digits(size_txt) && dec_value(size_txt)
                                <= u64::MAX {
                                Ok(
                                    SpecMessage::FileTransfer {
                                        filename,
                                        file_type,
                                        file_size: dec_value(size_txt) as u64,
                                        content,
                                    },
                                )
                            } else {
                                Err(DecodeError::Malformed)
                            }
                        },
                    }
                },
            }
        },
    }
}

/// `filename|index|total` NUL then the raw chunk.
pub open spec fn spec_parse_chnk(p: Seq<u8>) -> Result<SpecMessage, DecodeError> {
    match find_byte(p, NUL) {
        None => Err(DecodeError::Malformed),
        Some(j) => {
            let header = p.subrange(0, j);
            let content = p.subrange(j + 1, p.len() as int);
            match find_byte(header, PIPE) {
                None => Err(DecodeError::Malformed),
                Some(i0) => {
                    let filename = header.subrange(0, i0);
                    let h1 = header.subrange(i0 + 1, header.len() as int);
                    match find_byte(h1, PIPE) {
                        None => Err(DecodeError::Malformed),
                        Some(i1) => {
                            let idx_txt = h1.subrange(0, i1);
                            let tot_txt = h1.subrange(i1 + 1, h1.len() as int);
                            if find_byte(tot_txt, PIPE) is Some {
                                Err(DecodeError::Malformed)
                            } else if idx_txt.len() >= 1 && all_digits(idx_txt) && dec_value(
                                idx_txt,
                            ) <= u32::MAX && tot_txt.len() >= 1 && all_digits(tot_txt) && dec_value(
                                tot_txt,
                            ) <= u32::MAX {
                                Ok(
                                    SpecMessage::FileChunk {
                                        filename,
                                        chunk_index: dec_value(idx_txt) as u32,
                                        total_chunks: dec_value(tot_txt) as u32,
                                        content,
                                    },
                                )
                            } else {
                                Err(DecodeError::Malformed)
                            }
                        },
                    }
                },
            }
        },
    }
}

/// `filename|type|size|sha256|uploaded_at|hmac`, exactly six fields.
pub open spec fn spec_parse_fmta(p: Seq<u8>) -> Result<SpecMessage, DecodeError> {
    match find_byte(p, PIPE) {
        None => Err(DecodeError::Malformed),
        Some(i0) => {
            let filename = p.subrange(0, i0);
            let r1 = p.subrange(i0 + 1, p.len() as int);
            match find_byte(r1, PIPE) {
                None => Err(DecodeError::Malformed),
                Some(i1) => {
                    let file_type = r1.subrange(0, i1);
                    let r2 = r1.subrange(i1 + 1, r1.len() as int);
                    match find_byte(r2, PIPE) {
                        None => Err(DecodeError::Malformed),
                        Some(i2) => {
                            let size_txt = r2.subrange(0, i2);
                            let r3 = r2.subrange(i2 + 1, r2.len() as int);
                            match find_byte(r3, PIPE) {
                                None => Err(DecodeError::Malformed),
                                Some(i3) => {
                                    let sha256_hex = r3.subrange(0, i3);
                                    let r4 = r3.subrange(i3 + 1, r3.len() as int);
                                    match find_byte(r4, PIPE) {
                                        None => Err(DecodeError::Malformed),
                                        Some(i4) => {
                                            let uploaded_at = r4.subrange(0, i4);
                                            let hmac_hex = r4.subrange(i4 + 1, r4.len() as int);
                                            if find_byte(hmac_hex, PIPE) is Some {
                                                Err(DecodeError::Malformed)
                                            } else if size_txt.len() >= 1 && all_digits(size_txt)
                                                && dec_value(size_txt) <= u64::MAX {
                                                Ok(
                                                    SpecMessage::FileMeta {
                                                        filename,
                                                        file_type,
                                                        file_size: dec_value(size_txt) as u64,
                                                        sha256_hex,
                                                        uploaded_at,
                                                        hmac_hex,
                                                    },
                                                )
                                            } else {
                                                Err(DecodeError::Malformed)
                                            }
                                        },
                                    }
                                },
                            }
                        },
                    }
                },
            }
        },
    }
}

/// Dispatch on the marker. A sync request carries nothing and any payload is
/// tolerated, as arrived; every other variant parses strictly.
pub open spec fn spec_parse_payload(marker: Seq<u8>, p: Seq<u8>) -> Result<
    SpecMessage,
    DecodeError,
> {
    if marker == marker_file() {
        spec_parse_file(p)
    } else if marker == marker_sync() {
        Ok(SpecMessage::SyncRequest)
    } else if marker == marker_resp() {
        spec_parse_resp(p)
    } else if marker == marker_llmc() {
        spec_parse_llmc(p)
    } else if marker == marker_lreq() {
        spec_parse_lreq(p)
    } else if marker == marker_lres() {
        spec_parse_lres(p)
    } else if marker == marker_ftrs() {
        spec_parse_ftrs(p)
    } else if marker == marker_chnk() {
        spec_parse_chnk(p)
    } else if marker == marker_fmta() {
        spec_parse_fmta(p)
    } else {
        Err(DecodeError::UnknownMarker)
    }
}

/// Decodes one frame from the front of a buffer. An empty buffer is a clean
/// end of stream. The ceiling on the length field is checked before the
/// payload is looked at, let alone held.
pub open spec fn spec_decode_frame(buf: Seq<u8>) -> Result<
    Option<(SpecMessage, int)>,
    DecodeError,
> {
    if buf.len() == 0 {
        Ok(None)
    } else if buf.len() < 13 {
        Err(DecodeError::Truncated)
    } else {
        let marker = buf.subrange(0, 5);
        let plen = spec_u64_from_le_bytes(buf.subrange(5, 13));
        if plen > MAX_FRAME_LEN {
            Err(DecodeError::TooLarge)
        } else if buf.len() - 13 < plen {
            Err(DecodeError::Truncated)
        } else {
            match spec_parse_payload(marker, buf.subrange(13, 13 + plen as int)) {
                Ok(m) => Ok(Some((m, 13 + plen as int))),
                Err(e) => Err(e),
            }
        }
    }
}

// ---------------------------------------------------------------------------
// Round trip: decoding inverts encoding, for every well-formed message
// ---------------------------------------------------------------------------
/// The boolean texts hold no delimiter and differ from one another.
pub proof fn lemma_bool_text(b: bool)
    ensures
        has_no_byte(bool_text(b), PIPE),
        bool_text(true) != bool_text(false),
        bool_text(b).len() > 0,
{
    assert(bool_text(true).len() != bool_text(false).len());
    if b {
        assert forall|j: int| 0 <= j < bool_text(true).len() implies bool_text(true)[j]
            != PIPE by {}
    } else {
        assert forall|j: int| 0 <= j < bool_text(false).len() implies bool_text(false)[j]
            != PIPE by {}
    }
}

/// Splitting `head|tail` at the first pipe recovers head and tail.
proof fn lemma_split_pipe(head: Seq<u8>, tail: Seq<u8>)
    requires
        has_no_byte(head, PIPE),
    ensures
        find_byte(head + seq![PIPE] + tail, PIPE) == Some(head.len() as int),
        (head + seq![PIPE] + tail).subrange(0, head.len() as int) == head,
        (head + seq![PIPE] + tail).subrange(
            head.len() + 1 as int,
            (head + seq![PIPE] + tail).len() as int,
        ) == tail,
{
    lemma_find_byte_concat(head, tail, PIPE);
}

/// Every marker is five bytes.
pub proof fn lemma_marker_len(m: SpecMessage)
    ensures
        spec_marker(m).len() == 5,
{
}

/// `name|content` parses back.
proof fn lemma_round_file(name: Seq<u8>, content: Seq<u8>)
    requires
        has_no_byte(name, PIPE),
    ensures
        spec_parse_file(name + seq![PIPE] + content) == Ok::<SpecMessage, DecodeError>(
            SpecMessage::ConversationFile { name, content },
        ),
{
    lemma_split_pipe(name, content);
}

/// `peer_name|reason` parses back.
proof fn lemma_round_lreq(peer_name: Seq<u8>, reason: Seq<u8>)
    requires
        has_no_byte(peer_name, PIPE),
    ensures
        spec_parse_lreq(peer_name + seq![PIPE] + reason) == Ok::<SpecMessage, DecodeError>(
            SpecMessage::LLMAccessRequest { peer_name, reason },
        ),
{
    lemma_split_pipe(peer_name, reason);
}

/// An access response's payload parses back.
#[verifier::rlimit(50)]
proof fn lemma_round_lres(m: SpecMessage)
    requires
        wf_message(m),
        m is LLMAccessResponse,
    ensures
        spec_parse_lres(spec_payload(m)) == Ok::<SpecMessage, DecodeError>(m),
{
    let p = spec_payload(m);
    if let SpecMessage::LLMAccessResponse { granted, message, llm_host, llm_port } = m {
        lemma_bool_text(granted);
        lemma_bool_text(true);
        lemma_bool_text(false);
        let bt = bool_text(granted);
        let host_b = opt_host_bytes(llm_host);
        let port_b = opt_port_bytes(llm_port);
        let tail1 = host_b + seq![PIPE] + port_b;
        let tail0 = message + seq![PIPE] + tail1;
        assert(p =~= bt + seq![PIPE] + tail0);
        lemma_split_pipe(bt, tail0);
        lemma_split_pipe(message, tail1);
        if let Some(h) = llm_host {
            lemma_split_pipe(h, port_b);
        } else {
            assert(has_no_byte(host_b, PIPE));
            lemma_split_pipe(host_b, port_b);
        }
        if let Some(v) = llm_port {
            lemma_dec_digits(v as nat);
            lemma_digits_have_no_delims(port_b);
            lemma_find_byte_absent(port_b, PIPE);
        } else {
            lemma_find_byte_absent(port_b, PIPE);
        }
    }
}

/// A file transfer's payload parses back.
#[verifier::rlimit(50)]
proof fn lemma_round_ftrs(m: SpecMessage)
    requires
        wf_message(m),
        m is FileTransfer,
    ensures
        spec_parse_ftrs(spec_payload(m)) == Ok::<SpecMessage, DecodeError>(m),
{
    let p = spec_payload(m);
    if let SpecMessage::FileTransfer { filename, file_type, file_size, content } = m {
        let size_txt = dec_digits(file_size as nat);
        lemma_dec_digits(file_size as nat);
        lemma_digits_have_no_delims(size_txt);
        let tail1 = size_txt + seq![PIPE] + content;
        let tail0 = file_type + seq![PIPE] + tail1;
        assert(p =~= filename + seq![PIPE] + tail0);
        lemma_split_pipe(filename, tail0);
        lemma_split_pipe(file_type, tail1);
        lemma_split_pipe(size_txt, content);
    }
}

/// A file chunk's payload parses back.
#[verifier::rlimit(50)]
proof fn lemma_round_chnk(m: SpecMessage)
    requires
        wf_message(m),
        m is FileChunk,
    ensures
        spec_parse_chnk(spec_payload(m)) == Ok::<SpecMessage, DecodeError>(m),
{
    let p = spec_payload(m);
    if let SpecMessage::FileChunk { filename, chunk_index, total_chunks, content } = m {
        let idx_txt = dec_digits(chunk_index as nat);
        let tot_txt = dec_digits(total_chunks as nat);
        lemma_dec_digits(chunk_index as nat);
        lemma_dec_digits(total_chunks as nat);
        lemma_digits_have_no_delims(idx_txt);
        lemma_digits_have_no_delims(tot_txt);
        let header = filename + seq![PIPE] + idx_txt + seq![PIPE] + tot_txt;
        assert(has_no_byte(header, NUL)) by {
            assert forall|j: int| 0 <= j < header.len() implies header[j] != NUL by {
                if j < filename.len() {
                    assert(header[j] == filename[j]);
                } else if j == filename.len() {
                    assert(header[j] == PIPE);
                } else if j < filename.len() + 1 + idx_txt.len() {
                    assert(header[j] == idx_txt[j - filename.len() - 1]);
                } else if j == filename.len() + 1 + idx_txt.len() {
                    assert(header[j] == PIPE);
                } else {
                    assert(header[j] == tot_txt[j - filename.len() - idx_txt.len() - 2]);
                }
            }
        }
        assert(p =~= header + seq![NUL] + content);
        lemma_find_byte_concat(header, content, NUL);
        let tail0 = idx_txt + seq![PIPE] + tot_txt;
        assert(header =~= filename + seq![PIPE] + tail0);
        lemma_split_pipe(filename, tail0);
        lemma_split_pipe(idx_txt, tot_txt);
        lemma_find_byte_absent(tot_txt, PIPE);
    }
}

/// A file-metadata payload parses back.
#[verifier::rlimit(50)]
proof fn lemma_round_fmta(m: SpecMessage)
    requires
        wf_message(m),
        m is FileMeta,
    ensures
        spec_parse_fmta(spec_payload(m)) == Ok::<SpecMessage, DecodeError>(m),
{
    let p = spec_payload(m);
    if let SpecMessage::FileMeta {
        filename,
        file_type,
        file_size,
        sha256_hex,
        uploaded_at,
        hmac_hex,
    } = m {
        let size_txt = dec_digits(file_size as nat);
        lemma_dec_digits(file_size as nat);
        lemma_digits_have_no_delims(size_txt);
        let tail3 = uploaded_at + seq![PIPE] + hmac_hex;
        let tail2 = sha256_hex + seq![PIPE] + tail3;
        let tail1 = size_txt + seq![PIPE] + tail2;
        let tail0 = file_type + seq![PIPE] + tail1;
        assert(p =~= filename + seq![PIPE] + tail0);
        lemma_split_pipe(filename, tail0);
        lemma_split_pipe(file_type, tail1);
        lemma_split_pipe(size_txt, tail2);
        lemma_split_pipe(sha256_hex, tail3);
        lemma_split_pipe(uploaded_at, hmac_hex);
        lemma_find_byte_absent(hmac_hex, PIPE);
    }
}

/// A well-formed message's payload parses back to the message itself.
#[verifier::rlimit(50)]
pub proof fn lemma_payload_round_trip(m: SpecMessage)
    requires
        wf_message(m),
    ensures
        spec_parse_payload(spec_marker(m), spec_payload(m)) == Ok::<SpecMessage, DecodeError>(m),
{
    assert(marker_file()[0] == 70 && marker_sync()[0] == 83 && marker_resp()[0] == 82
        && marker_llmc()[0] == 76 && marker_lreq()[0] == 76 && marker_lres()[0] == 76
        && marker_ftrs()[0] == 70 && marker_chnk()[0] == 67 && marker_fmta()[0] == 70);
    assert(marker_file()[1] == 73 && marker_ftrs()[1] == 84 && marker_fmta()[1] == 77);
    assert(marker_llmc()[1] == 76 && marker_lreq()[1] == 82 && marker_lres()[1] == 82);
    assert(marker_lreq()[3] == 81 && marker_lres()[3] == 83);
    match m {
        SpecMessage::ConversationFile { name, content } => {
            lemma_round_file(name, content);
        },
        SpecMessage::SyncRequest => {
        },
        SpecMessage::SyncResponse { conversations } => {
            lemma_conv_list_round_trip(conversations);
        },
        SpecMessage::LLMCapability { has_llm } => {
            lemma_bool_text(has_llm);
        },
        SpecMessage::LLMAccessRequest { peer_name, reason } => {
            lemma_round_lreq(peer_name, reason);
        },
        SpecMessage::LLMAccessResponse { .. } => {
            lemma_round_lres(m);
        },
        SpecMessage::FileTransfer { .. } => {
            lemma_round_ftrs(m);
        },
        SpecMessage::FileChunk { .. } => {
            lemma_round_chnk(m);
        },
        SpecMessage::FileMeta { .. } => {
            lemma_round_fmta(m);
        },
    }
}

/// Decoding a frame inverts encoding it, for every well-formed message: the
/// message comes back unchanged and the whole frame is consumed.
pub proof fn lemma_frame_round_trip(m: SpecMessage)
    requires
        wf_message(m),
    ensures
        spec_decode_frame(spec_encode(m)) == Ok::<Option<(SpecMessage, int)>, DecodeError>(
            Some((m, spec_encode(m).len() as int)),
        ),
{
    let p = spec_payload(m);
    let enc = spec_encode(m);
    lemma_auto_spec_u64_to_from_le_bytes();
    lemma_marker_len(m);
    assert(spec_u64_to_le_bytes(p.len() as u64).len() == 8);
    assert(enc.len() == 13 + p.len());
    assert(enc.subrange(0, 5) =~= spec_marker(m));
    assert(enc.subrange(5, 13) =~= spec_u64_to_le_bytes(p.len() as u64));
    assert(spec_u64_from_le_bytes(spec_u64_to_le_bytes(p.len() as u64)) == p.len() as u64);
    assert(enc.subrange(13, 13 + (p.len() as u64) as int) =~= p);
    lemma_payload_round_trip(m);
}

/// A length field over the ceiling is always rejected as too large, whatever
/// else the frame holds: the payload is never parsed, nor even reached.
pub proof fn lemma_oversize_always_rejected(buf: Seq<u8>)
    requires
        buf.len() >= 13,
        spec_u64_from_le_bytes(buf.subrange(5, 13)) > MAX_FRAME_LEN,
    ensures
        spec_decode_frame(buf) == Err::<Option<(SpecMessage, int)>, DecodeError>(
            DecodeError::TooLarge,
        ),
{
}

// ---------------------------------------------------------------------------
// Executable encoding
// ---------------------------------------------------------------------------
/// Appends "true" or "false".
fn push_bool_text(dst: &mut Vec<u8>, b: bool)
    ensures
        final(dst)@ == old(dst)@ + bool_text(b),
{
    if b {
        dst.push(116);
        dst.push(114);
        dst.push(117);
        dst.push(101);
    } else {
        dst.push(102);
        dst.push(97);
        dst.push(108);
        dst.push(115);
        dst.push(101);
    }
    proof {
        assert(dst@ =~= old(dst)@ + bool_text(b));
    }
}

/// Appends the marker of the message's variant.
fn push_marker(dst: &mut Vec<u8>, m: &Message)
    ensures
        final(dst)@ == old(dst)@ + spec_marker(m@),
{
    match m {
        Message::ConversationFile { .. } => {
            dst.push(70);
            dst.push(73);
            dst.push(76);
            dst.push(69);
        },
        Message::SyncRequest => {
            dst.push(83);
            dst.push(89);
            dst.push(78);
            dst.push(67);
        },
        Message::SyncResponse { .. } => {
            dst.push(82);
            dst.push(69);
            dst.push(83);
            dst.push(80);
        },
        Message::LLMCapability { .. } => {
            dst.push(76);
            dst.push(76);
            dst.push(77);
            dst.push(67);
        },
        Message::LLMAccessRequest { .. } => {
            dst.push(76);
            dst.push(82);
            dst.push(69);
            dst.push(81);
        },
        Message::LLMAccessResponse { .. } => {
            dst.push(76);
            dst.push(82);
            dst.push(69);
            dst.push(83);
        },
        Message::FileTransfer { .. } => {
            dst.push(70);
            dst.push(84);
            dst.push(82);
            dst.push(83);
        },
        Message::FileChunk { .. } => {
            dst.push(67);
            dst.push(72);
            dst.push(78);
            dst.push(75);
        },
        Message::FileMeta { .. } => {
            dst.push(70);
            dst.push(77);
            dst.push(84);
            dst.push(65);
        },
    }
    dst.push(58);
    proof {
        assert(dst@ =~= old(dst)@ + spec_marker(m@));
    }
}

/// The payload bytes of a message.
pub fn encode_payload(m: &Message) -> (r: Vec<u8>)
    ensures
        r@ == spec_payload(m@),
{
    let mut out: Vec<u8> = Vec::new();
    match m {
        Message::ConversationFile { name, content } => {
            append_bytes(&mut out, name);
            out.push(PIPE);
            append_bytes(&mut out, content);
            proof {
                assert(out@ =~= spec_payload(m@));
            }
        },
        Message::SyncRequest => {
            proof {
                assert(out@ =~= spec_payload(m@));
            }
        },
        Message::SyncResponse { conversations } => {
            let enc = encode_conversations(conversations);
            append_bytes(&mut out, &enc);
            proof {
                assert(out@ =~= spec_payload(m@));
            }
        },
        Message::LLMCapability { has_llm } => {
            push_bool_text(&mut out, *has_llm);
            proof {
                assert(out@ =~= spec_payload(m@));
            }
        },
        Message::LLMAccessRequest { peer_name, reason } => {
            append_bytes(&mut out, peer_name);
            out.push(PIPE);
            append_bytes(&mut out, reason);
            proof {
                assert(out@ =~= spec_payload(m@));
            }
        },
        Message::LLMAccessResponse { granted, message, llm_host, llm_port } => {
            push_bool_text(&mut out, *granted);
            out.push(PIPE);
            append_bytes(&mut out, message);
            out.push(PIPE);
            match llm_host {
                Some(h) => append_bytes(&mut out, h),
                None => {},
            }
            out.push(PIPE);
            match llm_port {
                Some(v) => {
                    let d = u64_to_dec(*v as u64);
                    append_bytes(&mut out, &d);
                },
                None => {},
            }
            proof {
                assert(out@ =~= spec_payload(m@));
            }
        },
        Message::FileTransfer { filename, file_type, file_size, content } => {
            append_bytes(&mut out, filename);
            out.push(PIPE);
            append_bytes(&mut out, file_type);
            out.push(PIPE);
            let d = u64_to_dec(*file_size);
            append_bytes(&mut out, &d);
            out.push(PIPE);
            append_bytes(&mut out, content);
            proof {
                assert(out@ =~= spec_payload(m@));
            }
        },
        Message::FileChunk { filename, chunk_index, total_chunks, content } => {
            append_bytes(&mut out, filename);
            out.push(PIPE);
            let di = u64_to_dec(*chunk_index as u64);
            append_bytes(&mut out, &di);
            out.push(PIPE);
            let dt = u64_to_dec(*total_chunks as u64);
            append_bytes(&mut out, &dt);
            out.push(NUL);
            append_bytes(&mut out, content);
            proof {
                assert(out@ =~= spec_payload(m@));
            }
        },
        Message::FileMeta { filename, file_type, file_size, sha256_hex, uploaded_at, hmac_hex } => {
            append_bytes(&mut out, filename);
            out.push(PIPE);
            append_bytes(&mut out, file_type);
            out.push(PIPE);
            let d = u64_to_dec(*file_size);
            append_bytes(&mut out, &d);
            out.push(PIPE);
            append_bytes(&mut out, sha256_hex);
            out.push(PIPE);
            append_bytes(&mut out, uploaded_at);
            out.push(PIPE);
            append_bytes(&mut out, hmac_hex);
            proof {
                assert(out@ =~= spec_payload(m@));
            }
        },
    }
    out
}

/// Encodes a message as one frame: marker, length, payload.
pub fn encode(m: &Message) -> (r: Vec<u8>)
    ensures
        r@ == spec_encode(m@),
{
    let payload = encode_payload(m);
    let mut out: Vec<u8> = Vec::new();
    push_marker(&mut out, m);
    let lenb = u64_to_le_bytes(payload.len() as u64);
    append_bytes(&mut out, &lenb);
    append_bytes(&mut out, &payload);
    proof {
        assert(out@ =~= spec_encode(m@));
    }
    out
}

// ---------------------------------------------------------------------------
// Executable decoding
// ---------------------------------------------------------------------------
/// Whether the marker is the five bytes `a b c d ':'`.
fn marker_is(m: &Vec<u8>, a: u8, b: u8, c: u8, d: u8) -> (r: bool)
    ensures
        r == (m@ == seq![a, b, c, d, 58u8]),
{
    if m.len() == 5 && m[0] == a && m[1] == b && m[2] == c && m[3] == d && m[4] == 58 {
        proof {
            assert(m@ =~= seq![a, b, c, d, 58u8]);
        }
        true
    } else {
        false
    }
}

/// Recognizes "true" or "false", and nothing else.
fn match_bool_text(p: &Vec<u8>) -> (r: Option<bool>)
    ensures
        match r {
            Some(b) => p@ == bool_text(b),
            None => p@ != bool_text(true) && p@ != bool_text(false),
        },
{
    if p.len() == 4 && p[0] == 116 && p[1] == 114 && p[2] == 117 && p[3] == 101 {
        proof {
            assert(p@ =~= bool_text(true));
        }
        Some(true)
    } else if p.len() == 5 && p[0] == 102 && p[1] == 97 && p[2] == 108 && p[3] == 115 && p[4]
        == 101 {
        proof {
            assert(p@ =~= bool_text(false));
        }
        Some(false)
    } else {
        None
    }
}

/// Splits `p` at its first pipe, if it has one.
fn split_first_pipe(p: &Vec<u8>) -> (r: Option<(Vec<u8>, Vec<u8>)>)
    ensures
        match r {
            Some((head, tail)) => find_byte(p@, PIPE) matches Some(i) && head@ == p@.subrange(0, i)
                && tail@ == p@.subrange(i + 1, p@.len() as int),
            None => find_byte(p@, PIPE) is None,
        },
{
    match find_byte_in(p, PIPE) {
        None => None,
        Some(i) => {
            proof {
                crate::byteseq::lemma_find_byte_characterization(p@, PIPE);
                assert(i < p@.len());
                assert(p@.len() == p.len());
            }
            let head = bytes_range(p, 0, i);
            let tail = bytes_range(p, i + 1, p.len());
            Some((head, tail))
        },
    }
}

/// `name|content`.
fn parse_file(p: &Vec<u8>) -> (r: Result<Message, DecodeError>)
    ensures
        match r {
            Ok(m) => spec_parse_file(p@) == Ok::<SpecMessage, DecodeError>(m@),
            Err(e) => spec_parse_file(p@) == Err::<SpecMessage, DecodeError>(e),
        },
{
    match split_first_pipe(p) {
        None => Err(DecodeError::Malformed),
        Some((name, content)) => Ok(Message::ConversationFile { name, content }),
    }
}

/// A structured-text conversation list.
fn parse_resp(p: &Vec<u8>) -> (r: Result<Message, DecodeError>)
    ensures
        match r {
            Ok(m) => spec_parse_resp(p@) == Ok::<SpecMessage, DecodeError>(m@),
            Err(e) => spec_parse_resp(p@) == Err::<SpecMessage, DecodeError>(e),
        },
{
    match decode_conversations(p) {
        None => Err(DecodeError::Malformed),
        Some(conversations) => Ok(Message::SyncResponse { conversations }),
    }
}

/// `peer_name|reason`.
fn parse_lreq(p: &Vec<u8>) -> (r: Result<Message, DecodeError>)
    ensures
        match r {
            Ok(m) => spec_parse_lreq(p@) == Ok::<SpecMessage, DecodeError>(m@),
            Err(e) => spec_parse_lreq(p@) == Err::<SpecMessage, DecodeError>(e),
        },
{
    match split_first_pipe(p) {
        None => Err(DecodeError::Malformed),
        Some((peer_name, reason)) => Ok(Message::LLMAccessRequest { peer_name, reason }),
    }
}

/// `granted|message|host|port`.
fn parse_lres(p: &Vec<u8>) -> (r: Result<Message, DecodeError>)
    ensures
        match r {
            Ok(m) => spec_parse_lres(p@) == Ok::<SpecMessage, DecodeError>(m@),
            Err(e) => spec_parse_lres(p@) == Err::<SpecMessage, DecodeError>(e),
        },
{
    match split_first_pipe(p) {
        None => Err(DecodeError::Malformed),
        Some((granted_txt, r1)) => match split_first_pipe(&r1) {
            None => Err(DecodeError::Malformed),
            Some((message, r2)) => match split_first_pipe(&r2) {
                None => Err(DecodeError::Malformed),
                Some((host_b, r3)) => {
                    match find_byte_in(&r3, PIPE) {
                        Some(_) => Err(DecodeError::Malformed),
                        None => {
                            match match_bool_text(&granted_txt) {
                                None => Err(DecodeError::Malformed),
                                Some(granted) => {
                                    let llm_port: Option<u16> = if r3.len() == 0 {
                                        None
                                    } else {
                                        match parse_u64_dec(&r3) {
                                            Some(v) if v <= 65535 => Some(v as u16),
                                            _ => {
                                                return Err(DecodeError::Malformed);
                                            },
                                        }
                                    };
                                    let llm_host: Option<Vec<u8>> = if host_b.len() > 0 {
                                        Some(host_b)
                                    } else {
                                        None
                                    };
                                    proof {
                                        lemma_bool_text(true);
                                        lemma_bool_text(false);
                                    }
                                    Ok(
                                        Message::LLMAccessResponse {
                                            granted,
                                            message,
                                            llm_host,
                                            llm_port,
                                        },
                                    )
                                },
                            }
                        },
                    }
                },
            },
        },
    }
}

/// `filename|type|size|content`.
fn parse_ftrs(p: &Vec<u8>) -> (r: Result<Message, DecodeError>)
    ensures
        match r {
            Ok(m) => spec_parse_ftrs(p@) == Ok::<SpecMessage, DecodeError>(m@),
            Err(e) => spec_parse_ftrs(p@) == Err::<SpecMessage, DecodeError>(e),
        },
{
    match split_first_pipe(p) {
        None => Err(DecodeError::Malformed),
        Some((filename, r1)) => match split_first_pipe(&r1) {
            None => Err(DecodeError::Malformed),
            Some((file_type, r2)) => match split_first_pipe(&r2) {
                None => Err(DecodeError::Malformed),
                Some((size_txt, content)) => match parse_u64_dec(&size_txt) {
                    None => Err(DecodeError::Malformed),
                    Some(file_size) => Ok(
                        Message::FileTransfer { filename, file_type, file_size, content },
                    ),
                },
            },
        },
    }
}

/// Splits `p` at its first NUL, if it has one.
fn split_first_nul(p: &Vec<u8>) -> (r: Option<(Vec<u8>, Vec<u8>)>)
    ensures
        match r {
            Some((head, tail)) => find_byte(p@, NUL) matches Some(i) && head@ == p@.subrange(0, i)
                && tail@ == p@.subrange(i + 1, p@.len() as int),
            None => find_byte(p@, NUL) is None,
        },
{
    match find_byte_in(p, NUL) {
        None => None,
        Some(i) => {
            proof {
                crate::byteseq::lemma_find_byte_characterization(p@, NUL);
                assert(i < p@.len());
                assert(p@.len() == p.len());
            }
            let head = bytes_range(p, 0, i);
            let tail = bytes_range(p, i + 1, p.len());
            Some((head, tail))
        },
    }
}

/// `filename|index|total` NUL `chunk`.
fn parse_chnk(p: &Vec<u8>) -> (r: Result<Message, DecodeError>)
    ensures
        match r {
            Ok(m) => spec_parse_chnk(p@) == Ok::<SpecMessage, DecodeError>(m@),
            Err(e) => spec_parse_chnk(p@) == Err::<SpecMessage, DecodeError>(e),
        },
{
    match split_first_nul(p) {
        None => Err(DecodeError::Malformed),
        Some((header, content)) => match split_first_pipe(&header) {
            None => Err(DecodeError::Malformed),
            Some((filename, h1)) => match split_first_pipe(&h1) {
                None => Err(DecodeError::Malformed),
                Some((idx_txt, tot_txt)) => {
                    match find_byte_in(&tot_txt, PIPE) {
                        Some(_) => Err(DecodeError::Malformed),
                        None => {
                            let idx = match parse_u64_dec(&idx_txt) {
                                Some(v) if v <= u32::MAX as u64 => v as u32,
                                _ => {
                                    return Err(DecodeError::Malformed);
                                },
                            };
                            let tot = match parse_u64_dec(&tot_txt) {
                                Some(v) if v <= u32::MAX as u64 => v as u32,
                                _ => {
                                    return Err(DecodeError::Malformed);
                                },
                            };
                            Ok(
                                Message::FileChunk {
                                    filename,
                                    chunk_index: idx,
                                    total_chunks: tot,
                                    content,
                                },
                            )
                        },
                    }
                },
            },
        },
    }
}

/// `filename|type|size|sha256|uploaded_at|hmac`.
fn parse_fmta(p: &Vec<u8>) -> (r: Result<Message, DecodeError>)
    ensures
        match r {
            Ok(m) => spec_parse_fmta(p@) == Ok::<SpecMessage, DecodeError>(m@),
            Err(e) => spec_parse_fmta(p@) == Err::<SpecMessage, DecodeError>(e),
        },
{
    match split_first_pipe(p) {
        None => Err(DecodeError::Malformed),
        Some((filename, r1)) => match split_first_pipe(&r1) {
            None => Err(DecodeError::Malformed),
            Some((file_type, r2)) => match split_first_pipe(&r2) {
                None => Err(DecodeError::Malformed),
                Some((size_txt, r3)) => match split_first_pipe(&r3) {
                    None => Err(DecodeError::Malformed),
                    Some((sha256_hex, r4)) => match split_first_pipe(&r4) {
                        None => Err(DecodeError::Malformed),
                        Some((uploaded_at, hmac_hex)) => {
                            match find_byte_in(&hmac_hex, PIPE) {
                                Some(_) => Err(DecodeError::Malformed),
                                None => match parse_u64_dec(&size_txt) {
                                    None => Err(DecodeError::Malformed),
                                    Some(file_size) => Ok(
                                        Message::FileMeta {
                                            filename,
                                            file_type,
                                            file_size,
                                            sha256_hex,
                                            uploaded_at,
                                            hmac_hex,
                                        },
                                    ),
                                },
                            }
                        },
                    },
                },
            },
        },
    }
}

/// Parses a payload under its marker.
pub fn parse_payload(marker: &Vec<u8>, p: &Vec<u8>) -> (r: Result<Message, DecodeError>)
    ensures
        match r {
            Ok(m) => spec_parse_payload(marker@, p@) == Ok::<SpecMessage, DecodeError>(m@),
            Err(e) => spec_parse_payload(marker@, p@) == Err::<SpecMessage, DecodeError>(e),
        },
{
    if marker_is(marker, 70, 73, 76, 69) {
        parse_file(p)
    } else if marker_is(marker, 83, 89, 78, 67) {
        Ok(Message::SyncRequest)
    } else if marker_is(marker, 82, 69, 83, 80) {
        parse_resp(p)
    } else if marker_is(marker, 76, 76, 77, 67) {
        match match_bool_text(p) {
            Some(has_llm) => Ok(Message::LLMCapability { has_llm }),
            None => Err(DecodeError::Malformed),
        }
    } else if marker_is(marker, 76, 82, 69, 81) {
        parse_lreq(p)
    } else if marker_is(marker, 76, 82, 69, 83) {
        parse_lres(p)
    } else if marker_is(marker, 70, 84, 82, 83) {
        parse_ftrs(p)
    } else if marker_is(marker, 67, 72, 78, 75) {
        parse_chnk(p)
    } else if marker_is(marker, 70, 77, 84, 65) {
        parse_fmta(p)
    } else {
        Err(DecodeError::UnknownMarker)
    }
}

/// Reads the 8-byte length field and holds it to the ceiling. A streaming
/// reader calls this between the length read and the payload read, so an
/// oversized declaration is rejected before a single payload byte is read
/// or held.
pub fn frame_payload_len(len_bytes: &Vec<u8>) -> (r: Result<u64, DecodeError>)
    requires
        len_bytes@.len() == 8,
    ensures
        match r {
            Ok(n) => n == spec_u64_from_le_bytes(len_bytes@) && n <= MAX_FRAME_LEN,
            Err(e) => e == DecodeError::TooLarge && spec_u64_from_le_bytes(len_bytes@)
                > MAX_FRAME_LEN,
        },
{
    let n = u64_from_le_bytes(len_bytes.as_slice());
    if n > MAX_FRAME_LEN {
        Err(DecodeError::TooLarge)
    } else {
        Ok(n)
    }
}

/// Decodes one frame from the front of `buf`: the message and how many bytes
/// it took. `Ok(None)` is a clean end of stream. The length ceiling is
/// enforced before the payload is copied or looked at.
pub fn decode_frame(buf: &Vec<u8>) -> (r: Result<Option<(Message, usize)>, DecodeError>)
    ensures
        match r {
            Ok(None) => spec_decode_frame(buf@) == Ok::<Option<(SpecMessage, int)>, DecodeError>(
                None,
            ),
            Ok(Some((m, used))) => spec_decode_frame(buf@) == Ok::<
                Option<(SpecMessage, int)>,
                DecodeError,
            >(Some((m@, used as int))),
            Err(e) => spec_decode_frame(buf@) == Err::<Option<(SpecMessage, int)>, DecodeError>(e),
        },
{
    if buf.len() == 0 {
        return Ok(None);
    }
    if buf.len() < 13 {
        return Err(DecodeError::Truncated);
    }
    let lenb = bytes_range(buf, 5, 13);
    let plen = u64_from_le_bytes(lenb.as_slice());
    if plen > MAX_FRAME_LEN {
        return Err(DecodeError::TooLarge);
    }
    let plen_us = plen as usize;
    if buf.len() - 13 < plen_us {
        return Err(DecodeError::Truncated);
    }
    let marker = bytes_range(buf, 0, 5);
    let payload = bytes_range(buf, 13, 13 + plen_us);
    match parse_payload(&marker, &payload) {
        Ok(msg) => Ok(Some((msg, 13 + plen_us))),
        Err(e) => Err(e),
    }
}

} // verus!
