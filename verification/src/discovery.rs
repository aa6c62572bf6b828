//! Peer discovery: the UDP announcement's structured text, the /24 broadcast
//! address, the self-filter, and the debounce rule that keeps one noisy
//! source from flooding the connector.

use vstd::prelude::*;
use crate::byteseq::{has_no_byte, find_byte, lemma_find_byte_concat, find_byte_in, append_bytes,
    bytes_range};
use crate::numtext::{dec_digits, u64_to_dec};
use crate::codec::{PIPE, bool_text, lemma_bool_text};
use crate::registry::DebounceTable;

verus! {

/// "ONLINE", the one announcement type.
pub open spec fn online_text() -> Seq<u8> {
    seq![79u8, 78u8, 76u8, 73u8, 78u8, 69u8]
}

/// An announcement on the wire: `ONLINE|<has_llm>|<timestamp>`.
pub open spec fn spec_announcement(has_llm: bool, timestamp: Seq<u8>) -> Seq<u8> {
    online_text() + seq![PIPE] + bool_text(has_llm) + seq![PIPE] + timestamp
}

/// What an announcement's bytes say: the capability flag and the timestamp
/// text. Anything else is not an announcement.
pub open spec fn spec_parse_announcement(p: Seq<u8>) -> Option<(bool, Seq<u8>)> {
    match find_byte(p, PIPE) {
        None => None,
        Some(i0) => {
            let tag = p.subrange(0, i0);
            let r1 = p.subrange(i0 + 1, p.len() as int);
            if tag != online_text() {
                None
            } else {
                match find_byte(r1, PIPE) {
                    None => None,
                    Some(i1) => {
                        let flag = r1.subrange(0, i1);
                        let timestamp = r1.subrange(i1 + 1, r1.len() as int);
                        if flag == bool_text(true) {
                            Some((true, timestamp))
                        } else if flag == bool_text(false) {
                            Some((false, timestamp))
                        } else {
                            None
                        }
                    },
                }
            }
        },
    }
}

/// Builds an announcement datagram.
pub fn encode_announcement(has_llm: bool, timestamp: &Vec<u8>) -> (r: Vec<u8>)
    ensures
        r@ == spec_announcement(has_llm, timestamp@),
{
    let mut out: Vec<u8> = Vec::new();
    out.push(79);
    out.push(78);
    out.push(76);
    out.push(73);
    out.push(78);
    out.push(69);
    out.push(PIPE);
    if has_llm {
        out.push(116);
        out.push(114);
        out.push(117);
        out.push(101);
    } else {
        out.push(102);
        out.push(97);
        out.push(108);
        out.push(115);
        out.push(101);
    }
    out.push(PIPE);
    append_bytes(&mut out, timestamp);
    proof {
        assert(out@ =~= spec_announcement(has_llm, timestamp@));
    }
    out
}

/// Reads an announcement datagram.
pub fn parse_announcement(p: &Vec<u8>) -> (r: Option<(bool, Vec<u8>)>)
    ensures
        match r {
            Some((b, ts)) => spec_parse_announcement(p@) == Some((b, ts@)),
            None => spec_parse_announcement(p@) is None,
        },
{
    let i0 = match find_byte_in(p, PIPE) {
        None => {
            return None;
        },
        Some(i) => i,
    };
    proof {
        crate::byteseq::lemma_find_byte_characterization(p@, PIPE);
        assert(p@.len() == p.len());
    }
    let tag = bytes_range(p, 0, i0);
    let tag_ok = tag.len() == 6 && tag[0] == 79 && tag[1] == 78 && tag[2] == 76 && tag[3] == 73
        && tag[4] == 78 && tag[5] == 69;
    if !tag_ok {
        return None;
    }
    proof {
        assert(tag@ =~= online_text());
    }
    let r1 = bytes_range(p, i0 + 1, p.len());
    let i1 = match find_byte_in(&r1, PIPE) {
        None => {
            return None;
        },
        Some(i) => i,
    };
    proof {
        crate::byteseq::lemma_find_byte_characterization(r1@, PIPE);
        assert(r1@.len() == r1.len());
    }
    let flag = bytes_range(&r1, 0, i1);
    let timestamp = bytes_range(&r1, i1 + 1, r1.len());
    let is_true = flag.len() == 4 && flag[0] == 116 && flag[1] == 114 && flag[2] == 117 && flag[3]
        == 101;
    if is_true {
        proof {
            assert(flag@ =~= bool_text(true));
        }
        return Some((true, timestamp));
    }
    let is_false = flag.len() == 5 && flag[0] == 102 && flag[1] == 97 && flag[2] == 108 && flag[3]
        == 115 && flag[4] == 101;
    if is_false {
        proof {
            assert(flag@ =~= bool_text(false));
        }
        return Some((false, timestamp));
    }
    None
}

/// Decoding an announcement inverts encoding it, for every timestamp free of
/// the delimiter.
pub proof fn lemma_announcement_round_trip(has_llm: bool, timestamp: Seq<u8>)
    requires
        has_no_byte(timestamp, PIPE),
    ensures
        spec_parse_announcement(spec_announcement(has_llm, timestamp)) == Some(
            (has_llm, timestamp),
        ),
{
    let p = spec_announcement(has_llm, timestamp);
    lemma_bool_text(has_llm);
    lemma_bool_text(true);
    lemma_bool_text(false);
    assert(has_no_byte(online_text(), PIPE)) by {
        assert forall|j: int| 0 <= j < online_text().len() implies online_text()[j] != PIPE by {}
    }
    let tail0 = bool_text(has_llm) + seq![PIPE] + timestamp;
    assert(p =~= online_text() + seq![PIPE] + tail0);
    lemma_find_byte_concat(online_text(), tail0, PIPE);
    assert(p.subrange(0, online_text().len() as int) == online_text());
    lemma_find_byte_concat(bool_text(has_llm), timestamp, PIPE);
}

/// The /24 broadcast companion of an interface address: the host octet
/// forced to 255.
pub fn broadcast_octets(a: u8, b: u8, c: u8, d: u8) -> (r: (u8, u8, u8, u8))
    ensures
        r == (a, b, c, 255u8),
{
    (a, b, c, 255)
}

/// The broadcast address as text, `a.b.c.255:port`, ready for a datagram
/// socket.
pub fn broadcast_addr_text(a: u8, b: u8, c: u8, port: u16) -> (r: Vec<u8>)
    ensures
        r@ == dec_digits(a as nat) + seq![46u8] + dec_digits(b as nat) + seq![46u8] + dec_digits(
            c as nat,
        ) + seq![46u8] + dec_digits(255) + seq![58u8] + dec_digits(port as nat),
{
    let mut out = u64_to_dec(a as u64);
    out.push(46);
    let db = u64_to_dec(b as u64);
    append_bytes(&mut out, &db);
    out.push(46);
    let dc = u64_to_dec(c as u64);
    append_bytes(&mut out, &dc);
    out.push(46);
    let dh = u64_to_dec(255);
    append_bytes(&mut out, &dh);
    out.push(58);
    let dp = u64_to_dec(port as u64);
    append_bytes(&mut out, &dp);
    proof {
        assert(out@ =~= dec_digits(a as nat) + seq![46u8] + dec_digits(b as nat) + seq![46u8]
            + dec_digits(c as nat) + seq![46u8] + dec_digits(255) + seq![58u8] + dec_digits(
            port as nat,
        ));
    }
    out
}

/// Whether `ip` is one of this node's own addresses. The caller enumerates
/// the machine's interfaces; the membership test is decided here. Broadcast
/// traffic echoes back on the sending host, so the listener filters its own
/// datagrams with this before the debounce table sees them.
pub fn is_my_ip(ip: &String, local_addresses: &Vec<String>) -> (r: bool)
    ensures
        r == crate::registry::seq_has_addr(local_addresses@, ip@),
{
    let mut i: usize = 0;
    while i < local_addresses.len()
        invariant
            0 <= i <= local_addresses@.len(),
            forall|j: int| 0 <= j < i ==> #[trigger] local_addresses@[j]@ != ip@,
        decreases local_addresses@.len() - i,
    {
        if local_addresses[i] == *ip {
            proof {
                assert(crate::registry::seq_has_addr(local_addresses@, ip@));
            }
            return true;
        }
        i += 1;
    }
    proof {
        assert(!crate::registry::seq_has_addr(local_addresses@, ip@));
    }
    false
}

/// Whether an announcement from `src` at `now` is passed on to the
/// connector: never the node's own address, and never a source seen within
/// the debounce window.
pub open spec fn announcement_emitted(
    seen: Map<Seq<char>, i64>,
    src: Seq<char>,
    is_self: bool,
    now: int,
    window: int,
) -> bool {
    !is_self && (!seen.dom().contains(src) || now - seen[src] >= window)
}

/// Handles one received announcement: decides whether to emit the source to
/// the connector, and records the source's timestamp when it emits.
pub fn process_announcement(
    seen: &mut DebounceTable,
    src_ip: &String,
    is_self: bool,
    now: i64,
    window: i64,
) -> (emit: bool)
    requires
        old(seen).wf(),
        old(seen).nonneg(),
        0 <= now,
        0 <= window,
    ensures
        final(seen).wf(),
        final(seen).nonneg(),
        emit == announcement_emitted(old(seen)@, src_ip@, is_self, now as int, window as int),
        emit ==> final(seen)@ == old(seen)@.insert(src_ip@, now),
        !emit ==> final(seen)@ == old(seen)@,
{
    if is_self {
        return false;
    }
    let emit = match seen.last_seen(src_ip) {
        None => true,
        Some(last) => last <= now && now - last >= window,
    };
    if emit {
        seen.record(src_ip.clone(), now);
    }
    emit
}

/// The debounce law: once a source is emitted and recorded at `t1`, a second
/// announcement within the window is never emitted again, and one at or past
/// the window's end always is.
pub proof fn lemma_debounce_window(
    seen: Map<Seq<char>, i64>,
    src: Seq<char>,
    t1: i64,
    t2: i64,
    window: int,
)
    ensures
        t2 - t1 < window ==> !announcement_emitted(seen.insert(src, t1), src, false, t2 as int, window),
        t2 - t1 >= window ==> announcement_emitted(seen.insert(src, t1), src, false, t2 as int, window),
{
    assert(seen.insert(src, t1).dom().contains(src));
    assert(seen.insert(src, t1)[src] == t1);
}

} // verus!
