//! The connection manager's decisions: the mesh state all tasks share, the
//! dial-claim rule, handshake and periodic-share message sequences, and the
//! dispatch that every received message runs through. Sockets, timers and
//! persistence stay with the caller; everything decided here is verified.

use vstd::prelude::*;
use vstd::utf8::{valid_utf8, decode_utf8};
use crate::byteseq::{has_no_byte, find_byte_in, lemma_find_byte_characterization, bytes_range};
use crate::codec::{PIPE, Message, SpecMessage, wf_message, spec_payload, encode_payload};
use crate::convdata::{Conversation, SpecConversation, ConversationStore};
use crate::convcodec::{spec_enc_conv, spec_parse_conv_exact, conversation_to_bytes,
    conversation_from_bytes, conv_views};
use crate::capability::{spec_capability_set, spec_should_request, spec_response_effect,
    granted_text, denied_text};
use crate::registry::{PeerSet, HandleRegistry, ConnectionTable};
use crate::filedist::{FileInfo, SpecFileInfo, AnnouncedFileIndex, spec_add_file,
    spec_upsert_file, verify_file_meta, meta_accepted, BuildError};
use crate::wrappers::bytes_to_string;
use crate::MAX_FRAME_LEN;

verus! {

/// "local.json", the name every conversation snapshot travels under.
pub open spec fn local_json_text() -> Seq<u8> {
    seq![108u8, 111u8, 99u8, 97u8, 108u8, 46u8, 106u8, 115u8, 111u8, 110u8]
}

/// What the caller must do after a message was dispatched. The caller
/// performs the outside work; every decision was already taken here.
pub enum Action {
    /// Persist a received conversation snapshot under the peer's directory.
    SaveConversation { name: Vec<u8>, content: Vec<u8> },
    /// Persist a received file's bytes under the peer's directory.
    SaveFile { filename: Vec<u8>, content: Vec<u8> },
    /// Probe the local model's reachability, then answer through
    /// `grant_llm_access` with the probe's outcome.
    ProbeAndRespond { peer_name: Vec<u8>, reason: Vec<u8> },
    /// Send the peer an access request, built by `build_access_request`.
    RequestAccess,
}

/// Mathematical model of an `Action`.
pub enum SpecAction {
    SaveConversation { name: Seq<u8>, content: Seq<u8> },
    SaveFile { filename: Seq<u8>, content: Seq<u8> },
    ProbeAndRespond { peer_name: Seq<u8>, reason: Seq<u8> },
    RequestAccess,
}

impl View for Action {
    type V = SpecAction;

    open spec fn view(&self) -> SpecAction {
        match self {
            Action::SaveConversation { name, content } => SpecAction::SaveConversation {
                name: name@,
                content: content@,
            },
            Action::SaveFile { filename, content } => SpecAction::SaveFile {
                filename: filename@,
                content: content@,
            },
            Action::ProbeAndRespond { peer_name, reason } => SpecAction::ProbeAndRespond {
                peer_name: peer_name@,
                reason: reason@,
            },
            Action::RequestAccess => SpecAction::RequestAccess,
        }
    }
}

/// Builds a capability announcement.
pub fn build_capability_message(has_llm: bool) -> (r: Message)
    ensures
        r@ == (SpecMessage::LLMCapability { has_llm }),
        wf_message(r@),
{
    let m = Message::LLMCapability { has_llm };
    proof {
        assert(spec_payload(m@).len() <= MAX_FRAME_LEN);
    }
    m
}

/// Builds a sync request.
pub fn build_sync_request() -> (r: Message)
    ensures
        r@ == SpecMessage::SyncRequest,
        wf_message(r@),
{
    Message::SyncRequest
}

/// Builds an access request. The requester's name must not hold the field
/// delimiter; the reason travels after it and may.
pub fn build_access_request(peer_name: Vec<u8>, reason: Vec<u8>) -> (r: Result<
    Message,
    BuildError,
>)
    ensures
        ({
            let m_spec = SpecMessage::LLMAccessRequest { peer_name: peer_name@, reason: reason@ };
            match r {
                Ok(m) => {
                    &&& has_no_byte(peer_name@, PIPE)
                    &&& spec_payload(m_spec).len() <= MAX_FRAME_LEN
                    &&& m@ == m_spec
                    &&& wf_message(m@)
                },
                Err(BuildError::DelimiterInField) => !has_no_byte(peer_name@, PIPE),
                Err(BuildError::TooLarge) => has_no_byte(peer_name@, PIPE) && spec_payload(
                    m_spec,
                ).len() > MAX_FRAME_LEN,
            }
        }),
{
    if find_byte_in(&peer_name, PIPE).is_some() {
        proof {
            lemma_find_byte_characterization(peer_name@, PIPE);
        }
        return Err(BuildError::DelimiterInField);
    }
    proof {
        lemma_find_byte_characterization(peer_name@, PIPE);
    }
    let m = Message::LLMAccessRequest { peer_name, reason };
    let payload = encode_payload(&m);
    if payload.len() as u64 > MAX_FRAME_LEN {
        return Err(BuildError::TooLarge);
    }
    Ok(m)
}

/// Builds the conversation-file message carrying the local snapshot, under
/// the fixed name "local.json".
pub fn build_conversation_file(c: &Conversation) -> (r: Result<Message, BuildError>)
    ensures
        ({
            let m_spec = SpecMessage::ConversationFile {
                name: local_json_text(),
                content: spec_enc_conv(c@),
            };
            match r {
                Ok(m) => {
                    &&& spec_payload(m_spec).len() <= MAX_FRAME_LEN
                    &&& m@ == m_spec
                    &&& wf_message(m@)
                },
                Err(e) => e == BuildError::TooLarge && spec_payload(m_spec).len() > MAX_FRAME_LEN,
            }
        }),
{
    let mut name: Vec<u8> = Vec::new();
    name.push(108);
    name.push(111);
    name.push(99);
    name.push(97);
    name.push(108);
    name.push(46);
    name.push(106);
    name.push(115);
    name.push(111);
    name.push(110);
    proof {
        assert(name@ =~= local_json_text());
        assert(has_no_byte(local_json_text(), PIPE)) by {
            assert forall|j: int| 0 <= j < local_json_text().len() implies local_json_text()[j]
                != PIPE by {}
        }
    }
    let content = conversation_to_bytes(c);
    let m = Message::ConversationFile { name, content };
    let payload = encode_payload(&m);
    if payload.len() as u64 > MAX_FRAME_LEN {
        return Err(BuildError::TooLarge);
    }
    Ok(m)
}

/// The messages both sides send right after the transport exists: the
/// capability announcement, then the local snapshot when there is one.
pub fn handshake_messages(has_llm: bool, snapshot: Option<&Conversation>) -> (r: Result<
    Vec<Message>,
    BuildError,
>)
    ensures
        match r {
            Ok(ms) => {
                &&& 1 <= ms@.len() <= 2
                &&& ms@[0]@ == (SpecMessage::LLMCapability { has_llm })
                &&& wf_message(ms@[0]@)
                &&& (ms@.len() == 2 <==> snapshot is Some)
                &&& (snapshot matches Some(c) ==> ms@[1]@ == (SpecMessage::ConversationFile {
                    name: local_json_text(),
                    content: spec_enc_conv(c@),
                }) && wf_message(ms@[1]@))
            },
            Err(e) => {
                &&& e == BuildError::TooLarge
                &&& snapshot is Some
                &&& (snapshot matches Some(c) ==> spec_payload(
                    SpecMessage::ConversationFile {
                        name: local_json_text(),
                        content: spec_enc_conv(c@),
                    },
                ).len() > MAX_FRAME_LEN)
            },
        },
{
    let mut out: Vec<Message> = Vec::new();
    out.push(build_capability_message(has_llm));
    match snapshot {
        Some(c) => {
            match build_conversation_file(c) {
                Ok(m) => {
                    out.push(m);
                },
                Err(e) => {
                    return Err(e);
                },
            }
        },
        None => {},
    }
    Ok(out)
}

/// The messages the dialing side's periodic share task sends each tick: the
/// local snapshot when there is one, then a sync request.
pub fn periodic_share_messages(snapshot: Option<&Conversation>) -> (r: Result<
    Vec<Message>,
    BuildError,
>)
    ensures
        match r {
            Ok(ms) => {
                &&& 1 <= ms@.len() <= 2
                &&& ms@[ms@.len() - 1]@ == SpecMessage::SyncRequest
                &&& (ms@.len() == 2 <==> snapshot is Some)
                &&& (snapshot matches Some(c) ==> ms@[0]@ == (SpecMessage::ConversationFile {
                    name: local_json_text(),
                    content: spec_enc_conv(c@),
                }) && wf_message(ms@[0]@))
            },
            Err(e) => {
                &&& e == BuildError::TooLarge
                &&& snapshot is Some
                &&& (snapshot matches Some(c) ==> spec_payload(
                    SpecMessage::ConversationFile {
                        name: local_json_text(),
                        content: spec_enc_conv(c@),
                    },
                ).len() > MAX_FRAME_LEN)
            },
        },
{
    let mut out: Vec<Message> = Vec::new();
    match snapshot {
        Some(c) => {
            match build_conversation_file(c) {
                Ok(m) => {
                    out.push(m);
                },
                Err(e) => {
                    return Err(e);
                },
            }
        },
        None => {},
    }
    out.push(build_sync_request());
    Ok(out)
}

/// The endpoint a grant announces, when it announces a usable one: both
/// parts present and the host readable as text.
pub open spec fn endpoint_of(llm_host: Option<Seq<u8>>, llm_port: Option<u16>) -> Option<
    (Seq<char>, u16),
> {
    match (llm_host, llm_port) {
        (Some(h), Some(p)) => if valid_utf8(h) {
            Some((decode_utf8(h), p))
        } else {
            None
        },
        _ => None,
    }
}

/// The mesh state every task shares: who is connected, who can be written
/// to, who has capability, who granted what, what files were announced, and
/// the conversations.
pub struct MeshState {
    /// Peers dialed or dialing, claimed before the connect attempt.
    pub connected: PeerSet,
    /// The write-handle token of each live connection.
    pub handles: HandleRegistry,
    /// Peers that announced LLM capability.
    pub llm_peers: PeerSet,
    /// Peers that granted this node access to their LLM.
    pub authorized: PeerSet,
    /// Peers this node granted access to its own LLM.
    pub granted_to: PeerSet,
    /// Peer address to the endpoint its grant announced.
    pub llm_connections: ConnectionTable,
    /// Files announced by peers or broadcast locally.
    pub announced_files: AnnouncedFileIndex,
    /// The local snapshot and the last snapshot of each peer.
    pub conversations: ConversationStore,
    /// The shared HMAC secret, provisioned once at startup.
    pub secret: Option<Vec<u8>>,
}

impl MeshState {
    /// Every registry is well formed.
    pub open spec fn wf(&self) -> bool {
        &&& self.connected.wf()
        &&& self.handles.wf()
        &&& self.llm_peers.wf()
        &&& self.authorized.wf()
        &&& self.granted_to.wf()
        &&& self.llm_connections.wf()
        &&& self.announced_files.wf()
        &&& self.conversations.wf()
    }

    /// The shared secret's model.
    pub open spec fn secret_view(&self) -> Option<Seq<u8>> {
        match self.secret {
            Some(s) => Some(s@),
            None => None,
        }
    }

    /// The connection-lifecycle state is untouched.
    pub open spec fn same_lifecycle(a: &MeshState, b: &MeshState) -> bool {
        &&& a.connected@ == b.connected@
        &&& a.handles@ == b.handles@
        &&& a.secret_view() == b.secret_view()
    }

    /// The negotiation state is untouched.
    pub open spec fn same_capability(a: &MeshState, b: &MeshState) -> bool {
        &&& a.llm_peers@ == b.llm_peers@
        &&& a.authorized@ == b.authorized@
        &&& a.granted_to@ == b.granted_to@
        &&& a.llm_connections@ == b.llm_connections@
    }

    /// The file index is untouched.
    pub open spec fn same_files(a: &MeshState, b: &MeshState) -> bool {
        a.announced_files@ == b.announced_files@
    }

    /// The conversation store is untouched.
    pub open spec fn same_store(a: &MeshState, b: &MeshState) -> bool {
        &&& a.conversations.local_view() == b.conversations.local_view()
        &&& a.conversations.peers_view() == b.conversations.peers_view()
    }

    /// A fresh node: every table empty, no secret yet.
    pub fn new() -> (r: MeshState)
        ensures
            r.wf(),
            r.connected@ == Set::<Seq<char>>::empty(),
            r.handles@ == Map::<Seq<char>, u64>::empty(),
            r.llm_peers@ == Set::<Seq<char>>::empty(),
            r.authorized@ == Set::<Seq<char>>::empty(),
            r.granted_to@ == Set::<Seq<char>>::empty(),
            r.llm_connections@ == Map::<Seq<char>, (Seq<char>, u16)>::empty(),
            r.announced_files@ == Seq::<SpecFileInfo>::empty(),
            r.conversations.local_view() is None,
            r.conversations.peers_view() == Map::<Seq<char>, SpecConversation>::empty(),
            r.secret_view() is None,
    {
        MeshState {
            connected: PeerSet::new(),
            handles: HandleRegistry::new(),
            llm_peers: PeerSet::new(),
            authorized: PeerSet::new(),
            granted_to: PeerSet::new(),
            llm_connections: ConnectionTable::new(),
            announced_files: AnnouncedFileIndex::new(),
            conversations: ConversationStore::new(),
            secret: None,
        }
    }

    /// Provisions the shared HMAC secret, once, at startup.
    pub fn set_p2p_secret(&mut self, secret: Vec<u8>)
        requires
            old(self).wf(),
        ensures
            final(self).wf(),
            final(self).secret_view() == Some(secret@),
            final(self).connected@ == old(self).connected@,
            final(self).handles@ == old(self).handles@,
            Self::same_capability(final(self), old(self)),
            Self::same_files(final(self), old(self)),
            Self::same_store(final(self), old(self)),
    {
        self.secret = Some(secret);
    }

    /// Claims `ip` before a dial attempt. `false` means the peer is already
    /// dialed or dialing and no second connection may be attempted.
    pub fn dial_claim(&mut self, ip: &String) -> (claimed: bool)
        requires
            old(self).wf(),
        ensures
            final(self).wf(),
            claimed == !old(self).connected@.contains(ip@),
            final(self).connected@ == old(self).connected@.insert(ip@),
            final(self).handles@ == old(self).handles@,
            final(self).secret_view() == old(self).secret_view(),
            Self::same_capability(final(self), old(self)),
            Self::same_files(final(self), old(self)),
            Self::same_store(final(self), old(self)),
    {
        if self.connected.contains(ip) {
            proof {
                assert(self.connected@ =~= old(self).connected@.insert(ip@));
            }
            false
        } else {
            self.connected.insert(ip.clone());
            true
        }
    }

    /// Releases a claim whose connect attempt failed.
    pub fn dial_release(&mut self, ip: &String)
        requires
            old(self).wf(),
        ensures
            final(self).wf(),
            final(self).connected@ == old(self).connected@.remove(ip@),
            final(self).handles@ == old(self).handles@,
            final(self).secret_view() == old(self).secret_view(),
            Self::same_capability(final(self), old(self)),
            Self::same_files(final(self), old(self)),
            Self::same_store(final(self), old(self)),
    {
        self.connected.remove(ip);
    }

    /// Registers the write-handle token of `ip`'s connection, displacing any
    /// stale one.
    pub fn register_broadcast_handle(&mut self, ip: String, token: u64)
        requires
            old(self).wf(),
        ensures
            final(self).wf(),
            final(self).handles@ == old(self).handles@.insert(ip@, token),
            final(self).connected@ == old(self).connected@,
            final(self).secret_view() == old(self).secret_view(),
            Self::same_capability(final(self), old(self)),
            Self::same_files(final(self), old(self)),
            Self::same_store(final(self), old(self)),
    {
        self.handles.insert(ip, token);
    }

    /// Tears a connection down: the dial claim and the write handle go
    /// together, so no subsystem can keep writing through a stale handle.
    pub fn teardown_peer(&mut self, ip: &String)
        requires
            old(self).wf(),
        ensures
            final(self).wf(),
            final(self).connected@ == old(self).connected@.remove(ip@),
            final(self).handles@ == old(self).handles@.remove(ip@),
            final(self).secret_view() == old(self).secret_view(),
            Self::same_capability(final(self), old(self)),
            Self::same_files(final(self), old(self)),
            Self::same_store(final(self), old(self)),
    {
        self.connected.remove(ip);
        self.handles.remove(ip);
    }

    /// Records an announced file; a key already present keeps its entry.
    pub fn add_announced_file(&mut self, info: FileInfo)
        requires
            old(self).wf(),
        ensures
            final(self).wf(),
            final(self).announced_files@ == spec_add_file(old(self).announced_files@, info@),
            Self::same_lifecycle(final(self), old(self)),
            Self::same_capability(final(self), old(self)),
            Self::same_store(final(self), old(self)),
    {
        self.announced_files.add_announced_file(info);
    }

    /// A copy of the announced-file index.
    pub fn get_announced_files(&self) -> (r: Vec<FileInfo>)
        ensures
            crate::filedist::file_views(r@) == self.announced_files@,
    {
        self.announced_files.get_announced_files()
    }

    /// The LLM routing table, peer address by peer address, for the
    /// fallback that routes requests when the local model is unreachable.
    pub fn get_llm_routing_table(&self) -> (r: &Vec<(String, (String, u16))>)
        requires
            self.wf(),
        ensures
            r@ == self.llm_connections.entries@,
            forall|i: int| 0 <= i < r@.len() ==> self.llm_connections@.dom().contains(
                #[trigger] r@[i].0@,
            ) && self.llm_connections@[r@[i].0@] == crate::registry::conn_value(r@[i].1),
    {
        self.llm_connections.entries_list()
    }

    /// Answers an access request with the probe's outcome: a reachable
    /// model is granted, with this node's address and port, and the
    /// requester is recorded among the peers granted access; an unreachable
    /// one is denied, and nothing is recorded.
    pub fn grant_llm_access(
        &mut self,
        requester: &String,
        llm_reachable: bool,
        local_ip: &Vec<u8>,
        llm_port: u16,
    ) -> (r: Message)
        requires
            old(self).wf(),
            has_no_byte(local_ip@, PIPE),
            0 < local_ip@.len() <= 1024,
        ensures
            final(self).wf(),
            wf_message(r@),
            llm_reachable ==> r@ == (SpecMessage::LLMAccessResponse {
                granted: true,
                message: granted_text(),
                llm_host: Some(local_ip@),
                llm_port: Some(llm_port),
            }),
            llm_reachable ==> final(self).granted_to@ == old(self).granted_to@.insert(requester@),
            !llm_reachable ==> r@ == (SpecMessage::LLMAccessResponse {
                granted: false,
                message: denied_text(),
                llm_host: None,
                llm_port: None,
            }),
            !llm_reachable ==> final(self).granted_to@ == old(self).granted_to@,
            final(self).llm_peers@ == old(self).llm_peers@,
            final(self).authorized@ == old(self).authorized@,
            final(self).llm_connections@ == old(self).llm_connections@,
            Self::same_lifecycle(final(self), old(self)),
            Self::same_files(final(self), old(self)),
            Self::same_store(final(self), old(self)),
    {
        if llm_reachable {
            self.granted_to.insert(requester.clone());
            let mut message: Vec<u8> = Vec::new();
            message.push(65);
            message.push(99);
            message.push(99);
            message.push(101);
            message.push(115);
            message.push(115);
            message.push(32);
            message.push(103);
            message.push(114);
            message.push(97);
            message.push(110);
            message.push(116);
            message.push(101);
            message.push(100);
            let host = bytes_range(local_ip, 0, local_ip.len());
            let m = Message::LLMAccessResponse {
                granted: true,
                message,
                llm_host: Some(host),
                llm_port: Some(llm_port),
            };
            proof {
                assert(m@->LLMAccessResponse_message =~= granted_text());
                assert(host@ =~= local_ip@);
                assert(has_no_byte(granted_text(), PIPE)) by {
                    assert forall|j: int| 0 <= j < granted_text().len() implies granted_text()[j]
                        != PIPE by {}
                }
                assert(crate::numtext::pow10(0) == 1);
                assert(crate::numtext::pow10(1) == 10);
                assert(crate::numtext::pow10(2) == 100);
                assert(crate::numtext::pow10(3) == 1000);
                assert(crate::numtext::pow10(4) == 10000);
                assert(crate::numtext::pow10(5) == 100000);
                crate::numtext::lemma_dec_digits_len(llm_port as nat, 5);
                assert(spec_payload(m@).len() <= MAX_FRAME_LEN);
            }
            m
        } else {
            let mut message: Vec<u8> = Vec::new();
            message.push(76);
            message.push(76);
            message.push(77);
            message.push(32);
            message.push(110);
            message.push(111);
            message.push(116);
            message.push(32);
            message.push(97);
            message.push(118);
            message.push(97);
            message.push(105);
            message.push(108);
            message.push(97);
            message.push(98);
            message.push(108);
            message.push(101);
            let m = Message::LLMAccessResponse {
                granted: false,
                message,
                llm_host: None,
                llm_port: None,
            };
            proof {
                assert(m@->LLMAccessResponse_message =~= denied_text());
                assert(has_no_byte(denied_text(), PIPE)) by {
                    assert forall|j: int| 0 <= j < denied_text().len() implies denied_text()[j]
                        != PIPE by {}
                }
                assert(spec_payload(m@).len() <= MAX_FRAME_LEN);
            }
            m
        }
    }

    /// Applies a received access response: a grant records the peer as
    /// authorized and, when a usable endpoint was announced, its routing
    /// entry; a denial changes nothing and the next announcement re-asks.
    pub fn apply_access_response(
        &mut self,
        peer_ip: &String,
        granted: bool,
        endpoint: Option<(String, u16)>,
    )
        requires
            old(self).wf(),
        ensures
            final(self).wf(),
            ({
                let e = match endpoint {
                    Some(ep) => Some((ep.0@, ep.1)),
                    None => None,
                };
                let eff = spec_response_effect(
                    old(self).authorized@,
                    old(self).llm_connections@,
                    peer_ip@,
                    granted,
                    e,
                );
                final(self).authorized@ == eff.0 && final(self).llm_connections@ == eff.1
            }),
            final(self).llm_peers@ == old(self).llm_peers@,
            final(self).granted_to@ == old(self).granted_to@,
            Self::same_lifecycle(final(self), old(self)),
            Self::same_files(final(self), old(self)),
            Self::same_store(final(self), old(self)),
    {
        if granted {
            self.authorized.insert(peer_ip.clone());
            match endpoint {
                Some((host, port)) => {
                    self.llm_connections.insert(peer_ip.clone(), host, port);
                },
                None => {},
            }
        }
    }

    /// Dispatches one received message: updates the tables it speaks to and
    /// hands back what the caller must still do. `inbound` marks the
    /// accepting side of the connection; only the dialing side reacts to
    /// capability announcements with an access request and applies access
    /// responses. `now_text` is the caller's clock reading, recorded as a
    /// received transfer's upload time.
    #[verifier::rlimit(50)]
    pub fn handle_message(
        &mut self,
        peer_ip: &String,
        msg: Message,
        inbound: bool,
        now_text: &String,
    ) -> (actions: Vec<Action>)
        requires
            old(self).wf(),
        ensures
            final(self).wf(),
            final(self).connected@ == old(self).connected@,
            final(self).handles@ == old(self).handles@,
            final(self).secret_view() == old(self).secret_view(),
            final(self).granted_to@ == old(self).granted_to@,
            final(self).conversations.local_view() == old(self).conversations.local_view(),
            match msg@ {
                SpecMessage::ConversationFile { name, content } => {
                    &&& Self::same_capability(final(self), old(self))
                    &&& Self::same_files(final(self), old(self))
                    &&& actions@.len() == 1
                    &&& actions@[0]@ == (SpecAction::SaveConversation { name, content })
                    &&& match spec_parse_conv_exact(content) {
                        Some(cv) => final(self).conversations.peers_view() == old(
                            self,
                        ).conversations.peers_view().insert(peer_ip@, cv),
                        None => final(self).conversations.peers_view() == old(
                            self,
                        ).conversations.peers_view(),
                    }
                },
                SpecMessage::SyncRequest => {
                    &&& Self::same_capability(final(self), old(self))
                    &&& Self::same_files(final(self), old(self))
                    &&& Self::same_store(final(self), old(self))
                    &&& actions@.len() == 0
                },
                SpecMessage::SyncResponse { conversations } => {
                    &&& Self::same_capability(final(self), old(self))
                    &&& Self::same_files(final(self), old(self))
                    &&& actions@.len() == 0
                    &&& final(self).conversations.peers_view() == (if conversations.len() == 0 {
                        old(self).conversations.peers_view()
                    } else {
                        old(self).conversations.peers_view().insert(
                            peer_ip@,
                            conversations.last(),
                        )
                    })
                },
                SpecMessage::LLMCapability { has_llm } => {
                    &&& final(self).llm_peers@ == spec_capability_set(
                        old(self).llm_peers@,
                        peer_ip@,
                        has_llm,
                    )
                    &&& final(self).authorized@ == old(self).authorized@
                    &&& final(self).llm_connections@ == old(self).llm_connections@
                    &&& Self::same_files(final(self), old(self))
                    &&& Self::same_store(final(self), old(self))
                    &&& if !inbound && spec_should_request(
                        old(self).authorized@,
                        peer_ip@,
                        has_llm,
                    ) {
                        actions@.len() == 1 && actions@[0]@ == SpecAction::RequestAccess
                    } else {
                        actions@.len() == 0
                    }
                },
                SpecMessage::LLMAccessRequest { peer_name, reason } => {
                    &&& Self::same_capability(final(self), old(self))
                    &&& Self::same_files(final(self), old(self))
                    &&& Self::same_store(final(self), old(self))
                    &&& actions@.len() == 1
                    &&& actions@[0]@ == (SpecAction::ProbeAndRespond { peer_name, reason })
                },
                SpecMessage::LLMAccessResponse { granted, message, llm_host, llm_port } => {
                    &&& Self::same_files(final(self), old(self))
                    &&& Self::same_store(final(self), old(self))
                    &&& final(self).llm_peers@ == old(self).llm_peers@
                    &&& actions@.len() == 0
                    &&& if inbound {
                        final(self).authorized@ == old(self).authorized@ && final(self).llm_connections@ == old(self).llm_connections@
                    } else {
                        ({
                            let eff = spec_response_effect(
                                old(self).authorized@,
                                old(self).llm_connections@,
                                peer_ip@,
                                granted,
                                endpoint_of(llm_host, llm_port),
                            );
                            final(self).authorized@ == eff.0 && final(self).llm_connections@
                                == eff.1
                        })
                    }
                },
                SpecMessage::FileTransfer { filename, file_type, file_size, content } => {
                    &&& Self::same_capability(final(self), old(self))
                    &&& Self::same_store(final(self), old(self))
                    &&& actions@.len() == 1
                    &&& actions@[0]@ == (SpecAction::SaveFile { filename, content })
                    &&& if valid_utf8(filename) && valid_utf8(file_type) {
                        final(self).announced_files@ == spec_upsert_file(
                            old(self).announced_files@,
                            SpecFileInfo {
                                filename: decode_utf8(filename),
                                file_type: decode_utf8(file_type),
                                file_size: content.len() as u64,
                                uploader_ip: peer_ip@,
                                upload_time: now_text@,
                            },
                        )
                    } else {
                        final(self).announced_files@ == old(self).announced_files@
                    }
                },
                SpecMessage::FileChunk { .. } => {
                    &&& Self::same_capability(final(self), old(self))
                    &&& Self::same_files(final(self), old(self))
                    &&& Self::same_store(final(self), old(self))
                    &&& actions@.len() == 0
                },
                SpecMessage::FileMeta {
                    filename,
                    file_type,
                    file_size,
                    sha256_hex,
                    uploaded_at,
                    hmac_hex,
                } => {
                    &&& Self::same_capability(final(self), old(self))
                    &&& Self::same_store(final(self), old(self))
                    &&& actions@.len() == 0
                    &&& if meta_accepted(
                        old(self).secret_view(),
                        filename,
                        file_type,
                        file_size,
                        sha256_hex,
                        uploaded_at,
                        hmac_hex,
                    ) && valid_utf8(filename) && valid_utf8(file_type) && valid_utf8(uploaded_at) {
                        final(self).announced_files@ == spec_add_file(
                            old(self).announced_files@,
                            SpecFileInfo {
                                filename: decode_utf8(filename),
                                file_type: decode_utf8(file_type),
                                file_size,
                                uploader_ip: peer_ip@,
                                upload_time: decode_utf8(uploaded_at),
                            },
                        )
                    } else {
                        final(self).announced_files@ == old(self).announced_files@
                    }
                },
            },
    {
        match msg {
            Message::ConversationFile { name, content } => {
                match conversation_from_bytes(&content) {
                    Some(conv) => {
                        self.conversations.add_peer_conversation(peer_ip.clone(), conv);
                    },
                    None => {},
                }
                let mut actions: Vec<Action> = Vec::new();
                actions.push(Action::SaveConversation { name, content });
                actions
            },
            Message::SyncRequest => {
                Vec::new()
            },
            Message::SyncResponse { conversations } => {
                let ghost views = conv_views(conversations@);
                let ghost old_pv = self.conversations.peers_view();
                let mut i: usize = 0;
                while i < conversations.len()
                    invariant
                        0 <= i <= conversations@.len(),
                        views == conv_views(conversations@),
                        self.wf(),
                        Self::same_capability(self, old(self)),
                        Self::same_files(self, old(self)),
                        self.connected@ == old(self).connected@,
                        self.handles@ == old(self).handles@,
                        self.secret_view() == old(self).secret_view(),
                        self.conversations.local_view() == old(self).conversations.local_view(),
                        old_pv == old(self).conversations.peers_view(),
                        self.conversations.peers_view() == (if i == 0 {
                            old_pv
                        } else {
                            old_pv.insert(peer_ip@, views[i - 1])
                        }),
                    decreases conversations@.len() - i,
                {
                    let c = conversations[i].clone();
                    self.conversations.add_peer_conversation(peer_ip.clone(), c);
                    proof {
                        if i > 0 {
                            assert(old_pv.insert(peer_ip@, views[i - 1]).insert(
                                peer_ip@,
                                views[i as int],
                            ) =~= old_pv.insert(peer_ip@, views[i as int]));
                        }
                    }
                    i += 1;
                }
                Vec::new()
            },
            Message::LLMCapability { has_llm } => {
                if has_llm {
                    self.llm_peers.insert(peer_ip.clone());
                } else {
                    self.llm_peers.remove(peer_ip);
                }
                let mut actions: Vec<Action> = Vec::new();
                if !inbound && has_llm && !self.authorized.contains(peer_ip) {
                    actions.push(Action::RequestAccess);
                }
                actions
            },
            Message::LLMAccessRequest { peer_name, reason } => {
                let mut actions: Vec<Action> = Vec::new();
                actions.push(Action::ProbeAndRespond { peer_name, reason });
                actions
            },
            Message::LLMAccessResponse { granted, message: _note, llm_host, llm_port } => {
                if !inbound {
                    let endpoint: Option<(String, u16)> = match (llm_host, llm_port) {
                        (Some(h), Some(p)) => match bytes_to_string(h) {
                            Some(s) => Some((s, p)),
                            None => None,
                        },
                        _ => None,
                    };
                    self.apply_access_response(peer_ip, granted, endpoint);
                }
                Vec::new()
            },
            Message::FileTransfer { filename, file_type, file_size: _declared, content } => {
                let actual_size = content.len() as u64;
                let fname_copy = bytes_range(&filename, 0, filename.len());
                proof {
                    assert(fname_copy@ =~= filename@);
                }
                match (bytes_to_string(fname_copy), bytes_to_string(file_type)) {
                    (Some(fs), Some(ts)) => {
                        let info = FileInfo {
                            filename: fs,
                            file_type: ts,
                            file_size: actual_size,
                            uploader_ip: peer_ip.clone(),
                            upload_time: now_text.clone(),
                        };
                        self.announced_files.upsert_announced_file(info);
                    },
                    _ => {},
                }
                let mut actions: Vec<Action> = Vec::new();
                actions.push(Action::SaveFile { filename, content });
                actions
            },
            Message::FileChunk { filename: _f, chunk_index: _i, total_chunks: _t, content: _c } => {
                Vec::new()
            },
            Message::FileMeta { filename, file_type, file_size, sha256_hex, uploaded_at, hmac_hex } => {
                let accept = match &self.secret {
                    None => true,
                    Some(s) => verify_file_meta(
                        s,
                        &filename,
                        &file_type,
                        file_size,
                        &sha256_hex,
                        &uploaded_at,
                        &hmac_hex,
                    ),
                };
                if accept {
                    match (
                        bytes_to_string(filename),
                        bytes_to_string(file_type),
                        bytes_to_string(uploaded_at),
                    ) {
                        (Some(fs), Some(ts), Some(us)) => {
                            let info = FileInfo {
                                filename: fs,
                                file_type: ts,
                                file_size,
                                uploader_ip: peer_ip.clone(),
                                upload_time: us,
                            };
                            self.announced_files.add_announced_file(info);
                        },
                        _ => {},
                    }
                }
                Vec::new()
            },
        }
    }
}

} // verus!