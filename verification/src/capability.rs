//! Capability negotiation: what a capability announcement does to the
//! tables, when an access request is sent, and what a grant or denial does.
//! The authorized-peer set holds peers that granted this node access; peers
//! this node granted access to are held apart, so the two directions never
//! mix.

use vstd::prelude::*;

verus! {

/// What a capability announcement from `peer` does to the set of
/// LLM-capable peers.
pub open spec fn spec_capability_set(
    llm_peers: Set<Seq<char>>,
    peer: Seq<char>,
    has_llm: bool,
) -> Set<Seq<char>> {
    if has_llm {
        llm_peers.insert(peer)
    } else {
        llm_peers.remove(peer)
    }
}

/// Whether an access request is (re-)sent to `peer` on its announcement:
/// only a capable peer that has not already granted access is asked.
pub open spec fn spec_should_request(
    authorized: Set<Seq<char>>,
    peer: Seq<char>,
    has_llm: bool,
) -> bool {
    has_llm && !authorized.contains(peer)
}

/// What a received access response from `peer` does to the authorized set
/// and the routing table: a grant records the peer, and its endpoint when
/// one was announced; a denial changes nothing.
pub open spec fn spec_response_effect(
    authorized: Set<Seq<char>>,
    conns: Map<Seq<char>, (Seq<char>, u16)>,
    peer: Seq<char>,
    granted: bool,
    endpoint: Option<(Seq<char>, u16)>,
) -> (Set<Seq<char>>, Map<Seq<char>, (Seq<char>, u16)>) {
    if granted {
        (
            authorized.insert(peer),
            match endpoint {
                Some(e) => conns.insert(peer, e),
                None => conns,
            },
        )
    } else {
        (authorized, conns)
    }
}

/// "Access granted".
pub open spec fn granted_text() -> Seq<u8> {
    seq![65u8, 99u8, 99u8, 101u8, 115u8, 115u8, 32u8, 103u8, 114u8, 97u8, 110u8, 116u8, 101u8, 100u8]
}

/// "LLM not available".
pub open spec fn denied_text() -> Seq<u8> {
    seq![
        76u8,
        76u8,
        77u8,
        32u8,
        110u8,
        111u8,
        116u8,
        32u8,
        97u8,
        118u8,
        97u8,
        105u8,
        108u8,
        97u8,
        98u8,
        108u8,
        101u8,
    ]
}

/// The negotiation law for one handshake. Node `b` dials node `a`; only `a`
/// has capability. `b` sees `a`'s announcement and, not yet authorized,
/// asks; `a` grants with its endpoint; `b` applies the grant. Then `b`'s
/// authorized set holds `a` and `b`'s routing table maps `a` to the
/// announced endpoint — while `a`'s own authorized set and routing table,
/// which saw only `b`'s capability-less announcement and the request, hold
/// exactly what they held before.
pub proof fn lemma_handshake_authorization(
    b_authorized: Set<Seq<char>>,
    b_conns: Map<Seq<char>, (Seq<char>, u16)>,
    a_authorized: Set<Seq<char>>,
    a_conns: Map<Seq<char>, (Seq<char>, u16)>,
    a_llm_peers: Set<Seq<char>>,
    a_ip: Seq<char>,
    b_ip: Seq<char>,
    host: Seq<char>,
    port: u16,
)
    requires
        !b_authorized.contains(a_ip),
    ensures
        spec_should_request(b_authorized, a_ip, true),
        spec_response_effect(b_authorized, b_conns, a_ip, true, Some((host, port))).0.contains(
            a_ip,
        ),
        spec_response_effect(b_authorized, b_conns, a_ip, true, Some((host, port))).1[a_ip] == (
            host,
            port,
        ),
        spec_capability_set(a_llm_peers, b_ip, false) == a_llm_peers.remove(b_ip),
        spec_response_effect(a_authorized, a_conns, b_ip, false, None) == (a_authorized, a_conns),
{
    assert(b_authorized.insert(a_ip).contains(a_ip));
    assert(b_conns.insert(a_ip, (host, port))[a_ip] == (host, port));
}

} // verus!
