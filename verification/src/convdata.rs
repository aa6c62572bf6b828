//! Conversation snapshots: the data the mesh pushes to peers on connect and on
//! every sync tick, and the in-memory store of the local snapshot plus the
//! last snapshot received from each peer (last snapshot wins).

use vstd::prelude::*;

verus! {

/// Whether a chat message is a question put to the model or its response.
#[derive(Clone, Copy, PartialEq, Eq, Structural, Debug)]
pub enum MessageType {
    Question,
    Response,
}

/// The node a message originated on.
#[derive(Debug)]
pub struct HostInfo {
    pub hostname: String,
    pub ip_address: String,
    pub is_llm_host: bool,
}

/// Mathematical model of a `HostInfo`.
pub struct SpecHostInfo {
    pub hostname: Seq<char>,
    pub ip_address: Seq<char>,
    pub is_llm_host: bool,
}

impl View for HostInfo {
    type V = SpecHostInfo;

    open spec fn view(&self) -> SpecHostInfo {
        SpecHostInfo {
            hostname: self.hostname@,
            ip_address: self.ip_address@,
            is_llm_host: self.is_llm_host,
        }
    }
}

impl Clone for HostInfo {
    fn clone(&self) -> (r: Self)
        ensures
            r@ == self@,
    {
        HostInfo {
            hostname: self.hostname.clone(),
            ip_address: self.ip_address.clone(),
            is_llm_host: self.is_llm_host,
        }
    }
}

/// One chat message. The timestamp travels as opaque text.
#[derive(Debug)]
pub struct ChatMessage {
    pub content: String,
    pub timestamp: String,
    pub sender: String,
    pub message_type: MessageType,
    pub host_info: HostInfo,
}

/// Mathematical model of a `ChatMessage`.
pub struct SpecChatMessage {
    pub content: Seq<char>,
    pub timestamp: Seq<char>,
    pub sender: Seq<char>,
    pub message_type: MessageType,
    pub host_info: SpecHostInfo,
}

impl View for ChatMessage {
    type V = SpecChatMessage;

    open spec fn view(&self) -> SpecChatMessage {
        SpecChatMessage {
            content: self.content@,
            timestamp: self.timestamp@,
            sender: self.sender@,
            message_type: self.message_type,
            host_info: self.host_info@,
        }
    }
}

impl Clone for ChatMessage {
    fn clone(&self) -> (r: Self)
        ensures
            r@ == self@,
    {
        ChatMessage {
            content: self.content.clone(),
            timestamp: self.timestamp.clone(),
            sender: self.sender.clone(),
            message_type: self.message_type,
            host_info: self.host_info.clone(),
        }
    }
}

/// A conversation snapshot: an identity, its messages, and the host it lives on.
#[derive(Debug)]
pub struct Conversation {
    pub id: String,
    pub messages: Vec<ChatMessage>,
    pub host_info: HostInfo,
}

/// Mathematical model of a `Conversation`.
pub struct SpecConversation {
    pub id: Seq<char>,
    pub messages: Seq<SpecChatMessage>,
    pub host_info: SpecHostInfo,
}

impl View for Conversation {
    type V = SpecConversation;

    open spec fn view(&self) -> SpecConversation {
        SpecConversation {
            id: self.id@,
            messages: self.messages@.map_values(|m: ChatMessage| m@),
            host_info: self.host_info@,
        }
    }
}

impl Clone for Conversation {
    fn clone(&self) -> (r: Self)
        ensures
            r@ == self@,
    {
        let mut messages: Vec<ChatMessage> = Vec::new();
        let mut i: usize = 0;
        while i < self.messages.len()
            invariant
                0 <= i <= self.messages@.len(),
                messages@.len() == i,
                forall|j: int| 0 <= j < i ==> messages@[j]@ == self.messages@[j]@,
            decreases self.messages@.len() - i,
        {
            messages.push(self.messages[i].clone());
            i += 1;
        }
        let r = Conversation { id: self.id.clone(), messages, host_info: self.host_info.clone() };
        proof {
            assert(r@.messages =~= self@.messages);
        }
        r
    }
}

/// True when some entry of `entries` is keyed by `k`.
pub open spec fn convs_has_key(entries: Seq<(String, Conversation)>, k: Seq<char>) -> bool {
    exists|i: int| 0 <= i < entries.len() && #[trigger] entries[i].0@ == k
}

/// The index of the entry keyed by `k`.
pub open spec fn convs_index(entries: Seq<(String, Conversation)>, k: Seq<char>) -> int {
    choose|i: int| 0 <= i < entries.len() && #[trigger] entries[i].0@ == k
}

/// The in-memory conversation store: the local snapshot, and the last
/// snapshot received from each peer. A newly received snapshot overwrites
/// the peer's prior entry whole — last snapshot wins, nothing is merged.
pub struct ConversationStore {
    pub local_conversation: Option<Conversation>,
    pub peer_conversations: Vec<(String, Conversation)>,
}

impl ConversationStore {
    /// No peer address occurs twice.
    pub open spec fn wf(&self) -> bool {
        forall|i: int, j: int| 0 <= i < j < self.peer_conversations@.len()
            ==> self.peer_conversations@[i].0@ != self.peer_conversations@[j].0@
    }

    /// The local snapshot's model.
    pub open spec fn local_view(&self) -> Option<SpecConversation> {
        match self.local_conversation {
            Some(c) => Some(c@),
            None => None,
        }
    }

    /// The peer snapshots' model: address to last snapshot.
    pub open spec fn peers_view(&self) -> Map<Seq<char>, SpecConversation> {
        Map::new(
            |k: Seq<char>| convs_has_key(self.peer_conversations@, k),
            |k: Seq<char>|
                self.peer_conversations@[convs_index(self.peer_conversations@, k)].1@,
        )
    }

    /// The empty store.
    pub fn new() -> (r: ConversationStore)
        ensures
            r.wf(),
            r.local_view() is None,
            r.peers_view() == Map::<Seq<char>, SpecConversation>::empty(),
    {
        let r = ConversationStore { local_conversation: None, peer_conversations: Vec::new() };
        proof {
            assert(r.peers_view() =~= Map::<Seq<char>, SpecConversation>::empty());
        }
        r
    }

    /// A copy of the local snapshot, if one exists.
    pub fn get_local_conversation(&self) -> (r: Option<Conversation>)
        ensures
            match r {
                Some(c) => self.local_view() == Some(c@),
                None => self.local_view() is None,
            },
    {
        match &self.local_conversation {
            Some(c) => Some(c.clone()),
            None => None,
        }
    }

    /// Installs a local snapshot, as reloaded from persistence at startup.
    pub fn set_local_conversation(&mut self, c: Conversation)
        requires
            old(self).wf(),
        ensures
            final(self).wf(),
            final(self).local_view() == Some(c@),
            final(self).peers_view() == old(self).peers_view(),
    {
        self.local_conversation = Some(c);
        proof {
            assert(self.peers_view() =~= old(self).peers_view());
        }
    }

    /// Appends a message to the local conversation, creating it with the
    /// node's own host descriptor when none exists yet. Only the local
    /// conversation accepts appends; any other identity changes nothing.
    pub fn add_message(&mut self, conversation_id: &String, message: ChatMessage, self_host: HostInfo)
        requires
            old(self).wf(),
        ensures
            final(self).wf(),
            final(self).peers_view() == old(self).peers_view(),
            conversation_id@ != "local"@ ==> final(self).local_view() == old(self).local_view(),
            conversation_id@ == "local"@ ==> final(self).local_view() == Some(
                match old(self).local_view() {
                    Some(c) => SpecConversation {
                        id: c.id,
                        messages: c.messages.push(message@),
                        host_info: c.host_info,
                    },
                    None => SpecConversation {
                        id: "local"@,
                        messages: seq![message@],
                        host_info: SpecHostInfo {
                            hostname: self_host@.hostname,
                            ip_address: self_host@.ip_address,
                            is_llm_host: message@.host_info.is_llm_host,
                        },
                    },
                },
            ),
    {
        let local_id: String = String::from_str("local");
        if !(*conversation_id == local_id) {
            proof {
                assert(self.peers_view() =~= old(self).peers_view());
            }
            return;
        }
        let is_llm_host = message.host_info.is_llm_host;
        match self.local_conversation.take() {
            Some(mut c) => {
                c.messages.push(message);
                proof {
                    assert(c@.messages =~= old(self).local_view()->Some_0.messages.push(
                        message@,
                    ));
                }
                self.local_conversation = Some(c);
            },
            None => {
                let mut messages: Vec<ChatMessage> = Vec::new();
                messages.push(message);
                let c = Conversation {
                    id: String::from_str("local"),
                    messages,
                    host_info: HostInfo {
                        hostname: self_host.hostname,
                        ip_address: self_host.ip_address,
                        is_llm_host,
                    },
                };
                proof {
                    assert(c@.messages =~= seq![c.messages@[0]@]);
                }
                self.local_conversation = Some(c);
            },
        }
        proof {
            assert(self.peers_view() =~= old(self).peers_view());
        }
    }

    /// Drops a peer's snapshot.
    pub fn remove_peer_conversation(&mut self, peer_ip: &String)
        requires
            old(self).wf(),
        ensures
            final(self).wf(),
            final(self).local_view() == old(self).local_view(),
            final(self).peers_view() == old(self).peers_view().remove(peer_ip@),
    {
        let mut i: usize = 0;
        while i < self.peer_conversations.len()
            invariant
                0 <= i <= self.peer_conversations@.len(),
                forall|j: int| 0 <= j < i ==> #[trigger] self.peer_conversations@[j].0@
                    != peer_ip@,
                self.wf(),
                self.peer_conversations@ == old(self).peer_conversations@,
                self.local_conversation == old(self).local_conversation,
            decreases self.peer_conversations@.len() - i,
        {
            if self.peer_conversations[i].0 == *peer_ip {
                let ghost orig = self.peer_conversations@;
                self.peer_conversations.remove(i);
                proof {
                    Self::lemma_views_after_removal(
                        orig,
                        self.peer_conversations@,
                        i as int,
                        peer_ip@,
                    );
                    assert(self.peers_view() =~= old(self).peers_view().remove(peer_ip@));
                }
                return;
            }
            i += 1;
        }
        proof {
            assert(!convs_has_key(self.peer_conversations@, peer_ip@));
            assert(self.peers_view() =~= old(self).peers_view().remove(peer_ip@));
        }
    }

    /// After removing index `i`, whose key is `k0` and unique, the map loses
    /// exactly `k0`.
    proof fn lemma_views_after_removal(
        orig: Seq<(String, Conversation)>,
        now: Seq<(String, Conversation)>,
        i: int,
        k0: Seq<char>,
    )
        requires
            0 <= i < orig.len(),
            orig[i].0@ == k0,
            now == orig.subrange(0, i) + orig.subrange(i + 1, orig.len() as int),
            forall|a: int, b: int| 0 <= a < b < orig.len() ==> orig[a].0@ != orig[b].0@,
        ensures
            forall|a: int, b: int| 0 <= a < b < now.len() ==> now[a].0@ != now[b].0@,
            Map::new(
                |k: Seq<char>| convs_has_key(now, k),
                |k: Seq<char>| now[convs_index(now, k)].1@,
            ) =~= Map::new(
                |k: Seq<char>| convs_has_key(orig, k),
                |k: Seq<char>| orig[convs_index(orig, k)].1@,
            ).remove(k0),
    {
        assert(forall|j: int| 0 <= j < i ==> now[j] == orig[j]);
        assert(forall|j: int| i <= j < now.len() ==> now[j] == orig[j + 1]);
        let mnow = Map::new(
            |k: Seq<char>| convs_has_key(now, k),
            |k: Seq<char>| now[convs_index(now, k)].1@,
        );
        let morig = Map::new(
            |k: Seq<char>| convs_has_key(orig, k),
            |k: Seq<char>| orig[convs_index(orig, k)].1@,
        );
        assert forall|k: Seq<char>| mnow.dom().contains(k) implies morig.remove(k0).dom().contains(
            k,
        ) && mnow[k] == morig.remove(k0)[k] by {
            let j = choose|j: int| 0 <= j < now.len() && #[trigger] now[j].0@ == k;
            let jo = if j < i {
                j
            } else {
                j + 1
            };
            assert(orig[jo].0@ == k && orig[jo].1 == now[j].1);
            assert(convs_has_key(orig, k));
            assert(k != k0) by {
                assert(orig[i].0@ == k0);
            }
            let j1 = convs_index(now, k);
            assert(now[j1].0@ == k);
            assert(j1 == j);
            let jo1 = convs_index(orig, k);
            assert(orig[jo1].0@ == k);
            assert(jo1 == jo);
        }
        assert forall|k: Seq<char>| morig.remove(k0).dom().contains(k) implies mnow.dom().contains(
            k,
        ) by {
            let jo = choose|jo: int| 0 <= jo < orig.len() && #[trigger] orig[jo].0@ == k;
            assert(jo != i);
            if jo < i {
                assert(now[jo].0@ == k);
            } else {
                assert(now[jo - 1].0@ == k);
            }
        }
    }

    /// Stores a peer's snapshot, overwriting any prior entry whole.
    pub fn add_peer_conversation(&mut self, peer_ip: String, conversation: Conversation)
        requires
            old(self).wf(),
        ensures
            final(self).wf(),
            final(self).local_view() == old(self).local_view(),
            final(self).peers_view() == old(self).peers_view().insert(peer_ip@, conversation@),
    {
        self.remove_peer_conversation(&peer_ip);
        let ghost pre = self.peer_conversations@;
        let ghost mpre = self.peers_view();
        self.peer_conversations.push((peer_ip, conversation));
        proof {
            let n = pre.len() as int;
            let entries = self.peer_conversations@;
            let ip_v = entries[n].0@;
            let conv_v = entries[n].1@;
            assert(forall|j: int| 0 <= j < n ==> entries[j] == pre[j]);
            assert(!mpre.dom().contains(ip_v));
            assert(!convs_has_key(pre, ip_v));
            assert forall|k: Seq<char>| self.peers_view().dom().contains(k) implies mpre.insert(
                ip_v,
                conv_v,
            ).dom().contains(k) && self.peers_view()[k] == mpre.insert(ip_v, conv_v)[k] by {
                let j = choose|j: int| 0 <= j < entries.len() && #[trigger] entries[j].0@ == k;
                let j1 = convs_index(entries, k);
                assert(entries[j1].0@ == k);
                if k == ip_v {
                    assert(j1 == n) by {
                        if j1 < n {
                            assert(pre[j1].0@ == k);
                            assert(convs_has_key(pre, ip_v));
                        }
                    }
                } else {
                    assert(j < n) by {
                        assert(entries[n].0@ == ip_v);
                    }
                    assert(pre[j].0@ == k);
                    assert(convs_has_key(pre, k));
                    assert(j1 < n) by {
                        assert(entries[n].0@ == ip_v);
                    }
                    assert(pre[j1].0@ == k);
                    let jp = convs_index(pre, k);
                    assert(pre[jp].0@ == k);
                    assert(jp == j1);
                }
            }
            assert forall|k: Seq<char>| mpre.insert(ip_v, conv_v).dom().contains(k) implies
                self.peers_view().dom().contains(k) by {
                if k == ip_v {
                    assert(entries[n].0@ == k);
                } else {
                    let j = choose|j: int| 0 <= j < pre.len() && #[trigger] pre[j].0@ == k;
                    assert(entries[j].0@ == k);
                }
            }
            assert(self.peers_view() =~= mpre.insert(ip_v, conv_v));
        }
    }

    /// The peer snapshots, address by address.
    pub fn get_peer_conversations(&self) -> (r: &Vec<(String, Conversation)>)
        requires
            self.wf(),
        ensures
            r@ == self.peer_conversations@,
            forall|i: int| 0 <= i < r@.len() ==> self.peers_view().dom().contains(
                #[trigger] r@[i].0@,
            ) && self.peers_view()[r@[i].0@] == r@[i].1@,
    {
        proof {
            let entries = self.peer_conversations@;
            assert forall|i: int| 0 <= i < entries.len() implies self.peers_view().dom().contains(
                #[trigger] entries[i].0@,
            ) && self.peers_view()[entries[i].0@] == entries[i].1@ by {
                assert(convs_has_key(entries, entries[i].0@));
                let j = convs_index(entries, entries[i].0@);
                assert(entries[j].0@ == entries[i].0@);
                assert(j == i);
            }
        }
        &self.peer_conversations
    }
}

} // verus!
