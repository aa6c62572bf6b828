//! Structured-text encoding of conversation snapshot lists, the payload of a
//! sync response. Every field travels as a length-prefixed run of bytes
//! (`<decimal length>:<bytes>`), so no field needs escaping and decoding is
//! the exact inverse of encoding for every snapshot.

use vstd::prelude::*;
use vstd::utf8::{valid_utf8, decode_utf8, encode_utf8};
use vstd::utf8::{encode_utf8_valid_utf8, encode_utf8_decode_utf8};
use crate::convdata::{MessageType, SpecHostInfo, SpecChatMessage, SpecConversation};
use crate::convdata::{HostInfo, ChatMessage, Conversation};
use crate::numtext::{is_ascii_digit, all_digits, dec_value, dec_digits, lemma_dec_digits,
    lemma_dec_value_nonneg, u64_to_dec, parse_u64_dec};
use crate::byteseq::{append_bytes, bytes_range, suffix};
use crate::wrappers::bytes_to_string;

verus! {

/// ASCII code of ':'.
pub const COLON: u8 = 58;

// ---------------------------------------------------------------------------
// Encoding
// ---------------------------------------------------------------------------
/// A run of bytes, length-prefixed: `<decimal length>:<bytes>`.
pub open spec fn spec_enc_nstr(b: Seq<u8>) -> Seq<u8> {
    dec_digits(b.len()) + seq![COLON] + b
}

/// A string field: its UTF-8 bytes, length-prefixed.
pub open spec fn spec_enc_str(s: Seq<char>) -> Seq<u8> {
    spec_enc_nstr(encode_utf8(s))
}

/// A boolean field: one byte, '1' or '0'.
pub open spec fn spec_enc_bool(b: bool) -> Seq<u8> {
    if b {
        seq![49u8]
    } else {
        seq![48u8]
    }
}

/// A message type: one byte, 'Q' or 'R'.
pub open spec fn spec_enc_msgtype(t: MessageType) -> Seq<u8> {
    match t {
        MessageType::Question => seq![81u8],
        MessageType::Response => seq![82u8],
    }
}

/// A host descriptor: hostname, address, capability flag.
pub open spec fn spec_enc_host(h: SpecHostInfo) -> Seq<u8> {
    spec_enc_str(h.hostname) + spec_enc_str(h.ip_address) + spec_enc_bool(h.is_llm_host)
}

/// One chat message.
pub open spec fn spec_enc_chat(m: SpecChatMessage) -> Seq<u8> {
    spec_enc_str(m.content) + spec_enc_str(m.timestamp) + spec_enc_str(m.sender) + spec_enc_msgtype(
        m.message_type,
    ) + spec_enc_host(m.host_info)
}

/// A run of chat messages, one after the other.
pub open spec fn spec_enc_chat_seq(ms: Seq<SpecChatMessage>) -> Seq<u8>
    decreases ms.len(),
{
    if ms.len() == 0 {
        Seq::empty()
    } else {
        spec_enc_chat(ms[0]) + spec_enc_chat_seq(ms.drop_first())
    }
}

/// One conversation: identity, counted message run, host descriptor.
pub open spec fn spec_enc_conv(c: SpecConversation) -> Seq<u8> {
    spec_enc_str(c.id) + dec_digits(c.messages.len()) + seq![COLON] + spec_enc_chat_seq(c.messages)
        + spec_enc_host(c.host_info)
}

/// A run of conversations, one after the other.
pub open spec fn spec_enc_conv_seq(cs: Seq<SpecConversation>) -> Seq<u8>
    decreases cs.len(),
{
    if cs.len() == 0 {
        Seq::empty()
    } else {
        spec_enc_conv(cs[0]) + spec_enc_conv_seq(cs.drop_first())
    }
}

/// A whole snapshot list: a count followed by that many conversations.
pub open spec fn spec_enc_conv_list(cs: Seq<SpecConversation>) -> Seq<u8> {
    dec_digits(cs.len()) + seq![COLON] + spec_enc_conv_seq(cs)
}

// ---------------------------------------------------------------------------
// Decoding
// ---------------------------------------------------------------------------
/// Length of the maximal digit run at the front of `s`.
pub open spec fn digit_prefix_len(s: Seq<u8>) -> int
    decreases s.len(),
{
    if s.len() == 0 || !is_ascii_digit(s[0]) {
        0
    } else {
        1 + digit_prefix_len(s.drop_first())
    }
}

/// The digit prefix is a digit run, and it is maximal.
pub proof fn lemma_digit_prefix_char(s: Seq<u8>)
    ensures
        0 <= digit_prefix_len(s) <= s.len(),
        forall|j: int| 0 <= j < digit_prefix_len(s) ==> is_ascii_digit(#[trigger] s[j]),
        digit_prefix_len(s) == s.len() || !is_ascii_digit(s[digit_prefix_len(s)]),
    decreases s.len(),
{
    if s.len() > 0 && is_ascii_digit(s[0]) {
        let t = s.drop_first();
        lemma_digit_prefix_char(t);
        assert forall|j: int| 0 <= j < digit_prefix_len(s) implies is_ascii_digit(
            #[trigger] s[j],
        ) by {
            if j > 0 {
                assert(s[j] == t[j - 1]);
            }
        }
        if digit_prefix_len(s) < s.len() {
            assert(s[digit_prefix_len(s)] == t[digit_prefix_len(t)]);
        }
    }
}

/// An index bounding a digit run followed by a non-digit pins the prefix down.
pub proof fn lemma_digit_prefix_from_char(s: Seq<u8>, k: int)
    requires
        0 <= k <= s.len(),
        forall|j: int| 0 <= j < k ==> is_ascii_digit(#[trigger] s[j]),
        k == s.len() || !is_ascii_digit(s[k]),
    ensures
        digit_prefix_len(s) == k,
    decreases s.len(),
{
    if s.len() > 0 && is_ascii_digit(s[0]) {
        let t = s.drop_first();
        assert(k > 0);
        assert forall|j: int| 0 <= j < k - 1 implies is_ascii_digit(#[trigger] t[j]) by {
            assert(t[j] == s[j + 1]);
        }
        if k - 1 < t.len() {
            assert(t[k - 1] == s[k]);
        }
        lemma_digit_prefix_from_char(t, k - 1);
    }
}

/// A successful count is the value of a digit run, so it is nonnegative.
pub proof fn lemma_parse_count_nonneg(s: Seq<u8>)
    ensures
        spec_parse_count(s) matches Some((v, rest)) ==> v >= 0 && rest.len() < s.len(),
{
    lemma_digit_prefix_char(s);
    let k = digit_prefix_len(s);
    if 1 <= k < s.len() && s[k] == COLON {
        assert(all_digits(s.subrange(0, k)));
        lemma_dec_value_nonneg(s.subrange(0, k));
    }
}

/// Reads a decimal count followed by ':'. Yields the count and the rest.
pub open spec fn spec_parse_count(s: Seq<u8>) -> Option<(int, Seq<u8>)> {
    let k = digit_prefix_len(s);
    if k < 1 || k >= s.len() || s[k] != COLON {
        None
    } else {
        Some((dec_value(s.subrange(0, k)), s.subrange(k + 1, s.len() as int)))
    }
}

/// Reads a length-prefixed run of bytes.
pub open spec fn spec_parse_nstr(s: Seq<u8>) -> Option<(Seq<u8>, Seq<u8>)> {
    match spec_parse_count(s) {
        None => None,
        Some((v, rest)) => if v <= rest.len() {
            Some((rest.subrange(0, v), rest.subrange(v, rest.len() as int)))
        } else {
            None
        },
    }
}

/// Reads a string field; the bytes must be valid UTF-8.
pub open spec fn spec_parse_str(s: Seq<u8>) -> Option<(Seq<char>, Seq<u8>)> {
    match spec_parse_nstr(s) {
        None => None,
        Some((b, rest)) => if valid_utf8(b) {
            Some((decode_utf8(b), rest))
        } else {
            None
        },
    }
}

/// Reads a boolean field.
pub open spec fn spec_parse_bool(s: Seq<u8>) -> Option<(bool, Seq<u8>)> {
    if s.len() >= 1 && s[0] == 49 {
        Some((true, s.drop_first()))
    } else if s.len() >= 1 && s[0] == 48 {
        Some((false, s.drop_first()))
    } else {
        None
    }
}

/// Reads a message-type field.
pub open spec fn spec_parse_msgtype(s: Seq<u8>) -> Option<(MessageType, Seq<u8>)> {
    if s.len() >= 1 && s[0] == 81 {
        Some((MessageType::Question, s.drop_first()))
    } else if s.len() >= 1 && s[0] == 82 {
        Some((MessageType::Response, s.drop_first()))
    } else {
        None
    }
}

/// Reads a host descriptor.
pub open spec fn spec_parse_host(s: Seq<u8>) -> Option<(SpecHostInfo, Seq<u8>)> {
    match spec_parse_str(s) {
        None => None,
        Some((hostname, s1)) => match spec_parse_str(s1) {
            None => None,
            Some((ip_address, s2)) => match spec_parse_bool(s2) {
                None => None,
                Some((is_llm_host, s3)) => Some(
                    (SpecHostInfo { hostname, ip_address, is_llm_host }, s3),
                ),
            },
        },
    }
}

/// Reads one chat message.
pub open spec fn spec_parse_chat(s: Seq<u8>) -> Option<(SpecChatMessage, Seq<u8>)> {
    match spec_parse_str(s) {
        None => None,
        Some((content, s1)) => match spec_parse_str(s1) {
            None => None,
            Some((timestamp, s2)) => match spec_parse_str(s2) {
                None => None,
                Some((sender, s3)) => match spec_parse_msgtype(s3) {
                    None => None,
                    Some((message_type, s4)) => match spec_parse_host(s4) {
                        None => None,
                        Some((host_info, s5)) => Some(
                            (
                                SpecChatMessage {
                                    content,
                                    timestamp,
                                    sender,
                                    message_type,
                                    host_info,
                                },
                                s5,
                            ),
                        ),
                    },
                },
            },
        },
    }
}

/// Reads exactly `n` chat messages.
pub open spec fn spec_parse_chat_seq(s: Seq<u8>, n: nat) -> Option<
    (Seq<SpecChatMessage>, Seq<u8>),
>
    decreases n,
{
    if n == 0 {
        Some((Seq::empty(), s))
    } else {
        match spec_parse_chat(s) {
            None => None,
            Some((m, rest)) => match spec_parse_chat_seq(rest, (n - 1) as nat) {
                None => None,
                Some((ms, rest2)) => Some((seq![m] + ms, rest2)),
            },
        }
    }
}

/// Reads one conversation.
pub open spec fn spec_parse_conv(s: Seq<u8>) -> Option<(SpecConversation, Seq<u8>)> {
    match spec_parse_str(s) {
        None => None,
        Some((id, s1)) => match spec_parse_count(s1) {
            None => None,
            Some((n, s2)) => if n >= 0 {
                match spec_parse_chat_seq(s2, n as nat) {
                    None => None,
                    Some((messages, s3)) => match spec_parse_host(s3) {
                        None => None,
                        Some((host_info, s4)) => Some(
                            (SpecConversation { id, messages, host_info }, s4),
                        ),
                    },
                }
            } else {
                None
            },
        },
    }
}

/// Reads exactly `n` conversations.
pub open spec fn spec_parse_conv_seq(s: Seq<u8>, n: nat) -> Option<
    (Seq<SpecConversation>, Seq<u8>),
>
    decreases n,
{
    if n == 0 {
        Some((Seq::empty(), s))
    } else {
        match spec_parse_conv(s) {
            None => None,
            Some((c, rest)) => match spec_parse_conv_seq(rest, (n - 1) as nat) {
                None => None,
                Some((cs, rest2)) => Some((seq![c] + cs, rest2)),
            },
        }
    }
}

/// Reads a whole snapshot list; succeeds only when it consumes everything.
pub open spec fn spec_parse_conv_list(s: Seq<u8>) -> Option<Seq<SpecConversation>> {
    match spec_parse_count(s) {
        None => None,
        Some((n, rest)) => if n >= 0 {
            match spec_parse_conv_seq(rest, n as nat) {
                None => None,
                Some((cs, rest2)) => if rest2.len() == 0 {
                    Some(cs)
                } else {
                    None
                },
            }
        } else {
            None
        },
    }
}

// ---------------------------------------------------------------------------
// Round trip: decoding inverts encoding
// ---------------------------------------------------------------------------
/// A digit run followed by a non-digit is exactly the digit prefix.
pub proof fn lemma_digit_prefix(d: Seq<u8>, rest: Seq<u8>)
    requires
        all_digits(d),
        rest.len() > 0,
        !is_ascii_digit(rest[0]),
    ensures
        digit_prefix_len(d + rest) == d.len(),
    decreases d.len(),
{
    if d.len() == 0 {
        assert(d + rest =~= rest);
    } else {
        assert((d + rest)[0] == d[0]);
        assert((d + rest).drop_first() =~= d.drop_first() + rest);
        assert(all_digits(d.drop_first()));
        lemma_digit_prefix(d.drop_first(), rest);
    }
}

/// Reading a count from `<digits of n>:<rest>` yields `n` and `rest`.
pub proof fn lemma_parse_count(n: nat, rest: Seq<u8>)
    ensures
        spec_parse_count(dec_digits(n) + seq![COLON] + rest) == Some((n as int, rest)),
{
    lemma_dec_digits(n);
    let d = dec_digits(n);
    let s = d + seq![COLON] + rest;
    assert(d + (seq![COLON] + rest) =~= s);
    lemma_digit_prefix(d, seq![COLON] + rest);
    assert(digit_prefix_len(s) == d.len());
    assert(s[d.len() as int] == COLON);
    assert(s.subrange(0, d.len() as int) =~= d);
    assert(s.subrange(d.len() + 1 as int, s.len() as int) =~= rest);
}

/// Reading a length-prefixed run back yields the run and the rest.
pub proof fn lemma_parse_nstr(b: Seq<u8>, rest: Seq<u8>)
    ensures
        spec_parse_nstr(spec_enc_nstr(b) + rest) == Some((b, rest)),
{
    let s = spec_enc_nstr(b) + rest;
    assert(dec_digits(b.len()) + seq![COLON] + (b + rest) =~= s);
    lemma_parse_count(b.len(), b + rest);
    let r0 = b + rest;
    assert((b + rest).subrange(0, b.len() as int) =~= b);
    assert((b + rest).subrange(b.len() as int, r0.len() as int) =~= rest);
}

/// Reading a string field back yields the string and the rest.
pub proof fn lemma_parse_str(t: Seq<char>, rest: Seq<u8>)
    ensures
        spec_parse_str(spec_enc_str(t) + rest) == Some((t, rest)),
{
    broadcast use encode_utf8_valid_utf8, encode_utf8_decode_utf8;

    lemma_parse_nstr(encode_utf8(t), rest);
}

/// Reading a host descriptor back yields it and the rest.
pub proof fn lemma_parse_host(h: SpecHostInfo, rest: Seq<u8>)
    ensures
        spec_parse_host(spec_enc_host(h) + rest) == Some((h, rest)),
{
    let tail1 = spec_enc_str(h.ip_address) + spec_enc_bool(h.is_llm_host) + rest;
    assert(spec_enc_host(h) + rest =~= spec_enc_str(h.hostname) + tail1);
    lemma_parse_str(h.hostname, tail1);
    let tail2 = spec_enc_bool(h.is_llm_host) + rest;
    assert(tail1 =~= spec_enc_str(h.ip_address) + tail2);
    lemma_parse_str(h.ip_address, tail2);
    assert(spec_parse_bool(tail2) == Some((h.is_llm_host, rest))) by {
        assert(tail2.drop_first() =~= rest);
    }
}

/// Reading one chat message back yields it and the rest.
#[verifier::rlimit(50)]
pub proof fn lemma_parse_chat(m: SpecChatMessage, rest: Seq<u8>)
    ensures
        spec_parse_chat(spec_enc_chat(m) + rest) == Some((m, rest)),
{
    let tail1 = spec_enc_str(m.timestamp) + spec_enc_str(m.sender) + spec_enc_msgtype(
        m.message_type,
    ) + spec_enc_host(m.host_info) + rest;
    assert(spec_enc_chat(m) + rest =~= spec_enc_str(m.content) + tail1);
    lemma_parse_str(m.content, tail1);
    let tail2 = spec_enc_str(m.sender) + spec_enc_msgtype(m.message_type) + spec_enc_host(
        m.host_info,
    ) + rest;
    assert(tail1 =~= spec_enc_str(m.timestamp) + tail2);
    lemma_parse_str(m.timestamp, tail2);
    let tail3 = spec_enc_msgtype(m.message_type) + spec_enc_host(m.host_info) + rest;
    assert(tail2 =~= spec_enc_str(m.sender) + tail3);
    lemma_parse_str(m.sender, tail3);
    let tail4 = spec_enc_host(m.host_info) + rest;
    assert(spec_parse_msgtype(tail3) == Some((m.message_type, tail4))) by {
        assert(tail3.drop_first() =~= tail4);
    }
    lemma_parse_host(m.host_info, rest);
}

/// Reading `n` chat messages back yields them and the rest.
pub proof fn lemma_parse_chat_seq(ms: Seq<SpecChatMessage>, rest: Seq<u8>)
    ensures
        spec_parse_chat_seq(spec_enc_chat_seq(ms) + rest, ms.len()) == Some((ms, rest)),
    decreases ms.len(),
{
    if ms.len() == 0 {
        assert(spec_enc_chat_seq(ms) + rest =~= rest);
    } else {
        let tail = spec_enc_chat_seq(ms.drop_first()) + rest;
        assert(spec_enc_chat_seq(ms) + rest =~= spec_enc_chat(ms[0]) + tail);
        lemma_parse_chat(ms[0], tail);
        lemma_parse_chat_seq(ms.drop_first(), rest);
        assert(seq![ms[0]] + ms.drop_first() =~= ms);
    }
}

/// Reading one conversation back yields it and the rest.
pub proof fn lemma_parse_conv(c: SpecConversation, rest: Seq<u8>)
    ensures
        spec_parse_conv(spec_enc_conv(c) + rest) == Some((c, rest)),
{
    let tail1 = dec_digits(c.messages.len()) + seq![COLON] + spec_enc_chat_seq(c.messages)
        + spec_enc_host(c.host_info) + rest;
    assert(spec_enc_conv(c) + rest =~= spec_enc_str(c.id) + tail1);
    lemma_parse_str(c.id, tail1);
    let tail2 = spec_enc_chat_seq(c.messages) + spec_enc_host(c.host_info) + rest;
    assert(tail1 =~= dec_digits(c.messages.len()) + seq![COLON] + tail2);
    lemma_parse_count(c.messages.len(), tail2);
    let tail3 = spec_enc_host(c.host_info) + rest;
    assert(tail2 =~= spec_enc_chat_seq(c.messages) + tail3);
    lemma_parse_chat_seq(c.messages, tail3);
    lemma_parse_host(c.host_info, rest);
}

/// Reading `n` conversations back yields them and the rest.
pub proof fn lemma_parse_conv_seq(cs: Seq<SpecConversation>, rest: Seq<u8>)
    ensures
        spec_parse_conv_seq(spec_enc_conv_seq(cs) + rest, cs.len()) == Some((cs, rest)),
    decreases cs.len(),
{
    if cs.len() == 0 {
        assert(spec_enc_conv_seq(cs) + rest =~= rest);
    } else {
        let tail = spec_enc_conv_seq(cs.drop_first()) + rest;
        assert(spec_enc_conv_seq(cs) + rest =~= spec_enc_conv(cs[0]) + tail);
        lemma_parse_conv(cs[0], tail);
        lemma_parse_conv_seq(cs.drop_first(), rest);
        assert(seq![cs[0]] + cs.drop_first() =~= cs);
    }
}

/// Decoding a snapshot list inverts encoding it, for every snapshot list.
pub proof fn lemma_conv_list_round_trip(cs: Seq<SpecConversation>)
    ensures
        spec_parse_conv_list(spec_enc_conv_list(cs)) == Some(cs),
{
    let tail = spec_enc_conv_seq(cs);
    assert(spec_enc_conv_list(cs) =~= dec_digits(cs.len()) + seq![COLON] + tail);
    lemma_parse_count(cs.len(), tail);
    assert(tail =~= spec_enc_conv_seq(cs) + Seq::<u8>::empty());
    lemma_parse_conv_seq(cs, Seq::empty());
}

// ---------------------------------------------------------------------------
// Progress: every successful parse consumes part of its input
// ---------------------------------------------------------------------------
/// A parsed run leaves strictly less input behind.
pub proof fn lemma_parse_nstr_progress(s: Seq<u8>)
    ensures
        spec_parse_nstr(s) matches Some((b, rest)) ==> rest.len() < s.len(),
{
    lemma_parse_count_nonneg(s);
}

/// A parsed string leaves strictly less input behind.
pub proof fn lemma_parse_str_progress(s: Seq<u8>)
    ensures
        spec_parse_str(s) matches Some((t, rest)) ==> rest.len() < s.len(),
{
    lemma_parse_nstr_progress(s);
}

/// A parsed host descriptor leaves strictly less input behind.
pub proof fn lemma_parse_host_progress(s: Seq<u8>)
    ensures
        spec_parse_host(s) matches Some((h, rest)) ==> rest.len() < s.len(),
{
    lemma_parse_str_progress(s);
    if let Some((h0, s1)) = spec_parse_str(s) {
        lemma_parse_str_progress(s1);
    }
}

/// A parsed chat message leaves strictly less input behind.
pub proof fn lemma_parse_chat_progress(s: Seq<u8>)
    ensures
        spec_parse_chat(s) matches Some((m, rest)) ==> rest.len() < s.len(),
{
    lemma_parse_str_progress(s);
    if let Some((c0, s1)) = spec_parse_str(s) {
        lemma_parse_str_progress(s1);
        if let Some((t0, s2)) = spec_parse_str(s1) {
            lemma_parse_str_progress(s2);
            if let Some((n0, s3)) = spec_parse_str(s2) {
                if let Some((mt, s4)) = spec_parse_msgtype(s3) {
                    lemma_parse_host_progress(s4);
                }
            }
        }
    }
}

/// Parsing `n` chat messages needs at least `n` bytes of input.
pub proof fn lemma_parse_chat_seq_progress(s: Seq<u8>, n: nat)
    ensures
        spec_parse_chat_seq(s, n) matches Some((ms, rest)) ==> n + rest.len() <= s.len(),
    decreases n,
{
    if n > 0 {
        lemma_parse_chat_progress(s);
        if let Some((m, rest)) = spec_parse_chat(s) {
            lemma_parse_chat_seq_progress(rest, (n - 1) as nat);
        }
    }
}

/// A parsed conversation leaves strictly less input behind.
pub proof fn lemma_parse_conv_progress(s: Seq<u8>)
    ensures
        spec_parse_conv(s) matches Some((c, rest)) ==> rest.len() < s.len(),
{
    lemma_parse_str_progress(s);
    if let Some((id, s1)) = spec_parse_str(s) {
        if let Some((n, s2)) = spec_parse_count(s1) {
            if n >= 0 {
                lemma_parse_chat_seq_progress(s2, n as nat);
                if let Some((ms, s3)) = spec_parse_chat_seq(s2, n as nat) {
                    lemma_parse_host_progress(s3);
                }
            }
        }
    }
}

/// Parsing `n` conversations needs at least `n` bytes of input.
pub proof fn lemma_parse_conv_seq_progress(s: Seq<u8>, n: nat)
    ensures
        spec_parse_conv_seq(s, n) matches Some((cs, rest)) ==> n + rest.len() <= s.len(),
    decreases n,
{
    if n > 0 {
        lemma_parse_conv_progress(s);
        if let Some((c, rest)) = spec_parse_conv(s) {
            lemma_parse_conv_seq_progress(rest, (n - 1) as nat);
        }
    }
}

// ---------------------------------------------------------------------------
// Executable encoding
// ---------------------------------------------------------------------------
/// Appending one message extends the encoded run at its end.
pub proof fn lemma_enc_chat_seq_snoc(ms: Seq<SpecChatMessage>, m: SpecChatMessage)
    ensures
        spec_enc_chat_seq(ms.push(m)) == spec_enc_chat_seq(ms) + spec_enc_chat(m),
    decreases ms.len(),
{
    if ms.len() == 0 {
        let e = Seq::<SpecChatMessage>::empty();
        assert(ms =~= e);
        assert(spec_enc_chat_seq(e) == Seq::<u8>::empty());
        assert(ms.push(m).drop_first() =~= e);
        assert(ms.push(m)[0] == m);
        assert(spec_enc_chat_seq(ms.push(m)) == spec_enc_chat(m) + spec_enc_chat_seq(
            ms.push(m).drop_first(),
        ));
        assert(spec_enc_chat(m) + Seq::<u8>::empty() =~= Seq::<u8>::empty() + spec_enc_chat(m));
    } else {
        let a = spec_enc_chat(ms[0]);
        let b = spec_enc_chat_seq(ms.drop_first());
        let c = spec_enc_chat(m);
        assert(ms.push(m)[0] == ms[0]);
        assert(ms.push(m).drop_first() =~= ms.drop_first().push(m));
        assert(spec_enc_chat_seq(ms.push(m)) == a + spec_enc_chat_seq(ms.drop_first().push(m)));
        lemma_enc_chat_seq_snoc(ms.drop_first(), m);
        assert(a + (b + c) =~= (a + b) + c);
        assert(spec_enc_chat_seq(ms) == a + b);
    }
}

/// Appending one conversation extends the encoded run at its end.
pub proof fn lemma_enc_conv_seq_snoc(cs: Seq<SpecConversation>, c: SpecConversation)
    ensures
        spec_enc_conv_seq(cs.push(c)) == spec_enc_conv_seq(cs) + spec_enc_conv(c),
    decreases cs.len(),
{
    if cs.len() == 0 {
        let e = Seq::<SpecConversation>::empty();
        assert(cs =~= e);
        assert(spec_enc_conv_seq(e) == Seq::<u8>::empty());
        assert(cs.push(c).drop_first() =~= e);
        assert(cs.push(c)[0] == c);
        assert(spec_enc_conv_seq(cs.push(c)) == spec_enc_conv(c) + spec_enc_conv_seq(
            cs.push(c).drop_first(),
        ));
        assert(spec_enc_conv(c) + Seq::<u8>::empty() =~= Seq::<u8>::empty() + spec_enc_conv(c));
    } else {
        let a = spec_enc_conv(cs[0]);
        let b = spec_enc_conv_seq(cs.drop_first());
        let d = spec_enc_conv(c);
        assert(cs.push(c)[0] == cs[0]);
        assert(cs.push(c).drop_first() =~= cs.drop_first().push(c));
        assert(spec_enc_conv_seq(cs.push(c)) == a + spec_enc_conv_seq(cs.drop_first().push(c)));
        lemma_enc_conv_seq_snoc(cs.drop_first(), c);
        assert(a + (b + d) =~= (a + b) + d);
        assert(spec_enc_conv_seq(cs) == a + b);
    }
}

/// Appends a length-prefixed run of bytes.
pub fn enc_nstr(dst: &mut Vec<u8>, b: &Vec<u8>)
    ensures
        final(dst)@ == old(dst)@ + spec_enc_nstr(b@),
{
    let lenv = u64_to_dec(b.len() as u64);
    append_bytes(dst, &lenv);
    dst.push(COLON);
    append_bytes(dst, b);
    proof {
        assert(dst@ =~= old(dst)@ + spec_enc_nstr(b@));
    }
}

/// Appends a string field.
pub fn enc_str(dst: &mut Vec<u8>, s: &String)
    ensures
        final(dst)@ == old(dst)@ + spec_enc_str(s@),
{
    let b = s.as_str().as_bytes_vec();
    enc_nstr(dst, &b);
}

/// Appends a boolean field.
pub fn enc_bool(dst: &mut Vec<u8>, b: bool)
    ensures
        final(dst)@ == old(dst)@ + spec_enc_bool(b),
{
    if b {
        dst.push(49);
    } else {
        dst.push(48);
    }
    proof {
        assert(dst@ =~= old(dst)@ + spec_enc_bool(b));
    }
}

/// Appends a message-type field.
pub fn enc_msgtype(dst: &mut Vec<u8>, t: MessageType)
    ensures
        final(dst)@ == old(dst)@ + spec_enc_msgtype(t),
{
    match t {
        MessageType::Question => dst.push(81),
        MessageType::Response => dst.push(82),
    }
    proof {
        assert(dst@ =~= old(dst)@ + spec_enc_msgtype(t));
    }
}

/// Appends a host descriptor.
pub fn enc_host(dst: &mut Vec<u8>, h: &HostInfo)
    ensures
        final(dst)@ == old(dst)@ + spec_enc_host(h@),
{
    enc_str(dst, &h.hostname);
    enc_str(dst, &h.ip_address);
    enc_bool(dst, h.is_llm_host);
    proof {
        assert(dst@ =~= old(dst)@ + spec_enc_host(h@));
    }
}

/// Appends one chat message.
pub fn enc_chat(dst: &mut Vec<u8>, m: &ChatMessage)
    ensures
        final(dst)@ == old(dst)@ + spec_enc_chat(m@),
{
    enc_str(dst, &m.content);
    enc_str(dst, &m.timestamp);
    enc_str(dst, &m.sender);
    enc_msgtype(dst, m.message_type);
    enc_host(dst, &m.host_info);
    proof {
        assert(dst@ =~= old(dst)@ + spec_enc_chat(m@));
    }
}

/// Appends a run of chat messages.
pub fn enc_chat_seq(dst: &mut Vec<u8>, ms: &Vec<ChatMessage>)
    ensures
        final(dst)@ == old(dst)@ + spec_enc_chat_seq(ms@.map_values(|m: ChatMessage| m@)),
{
    let ghost views = ms@.map_values(|m: ChatMessage| m@);
    let ghost orig = dst@;
    let mut i: usize = 0;
    while i < ms.len()
        invariant
            0 <= i <= ms@.len(),
            views == ms@.map_values(|m: ChatMessage| m@),
            dst@ == orig + spec_enc_chat_seq(views.subrange(0, i as int)),
        decreases ms@.len() - i,
    {
        proof {
            assert(spec_enc_chat_seq(views.subrange(0, i as int)) == spec_enc_chat_seq(
                views.subrange(0, i as int),
            ));
        }
        enc_chat(dst, &ms[i]);
        i += 1;
        proof {
            assert(views.subrange(0, i as int) =~= views.subrange(0, i - 1 as int).push(
                views[i - 1],
            ));
            lemma_enc_chat_seq_snoc(views.subrange(0, i - 1 as int), views[i - 1]);
            assert(views[i - 1] == ms@[i - 1]@);
            assert(dst@ =~= orig + spec_enc_chat_seq(views.subrange(0, i as int)));
        }
    }
    proof {
        assert(views.subrange(0, views.len() as int) =~= views);
    }
}

/// Appends one conversation.
pub fn enc_conv(dst: &mut Vec<u8>, c: &Conversation)
    ensures
        final(dst)@ == old(dst)@ + spec_enc_conv(c@),
{
    enc_str(dst, &c.id);
    let count = u64_to_dec(c.messages.len() as u64);
    append_bytes(dst, &count);
    dst.push(COLON);
    enc_chat_seq(dst, &c.messages);
    enc_host(dst, &c.host_info);
    proof {
        assert(c@.messages.len() == c.messages@.len());
        assert(dst@ =~= old(dst)@ + spec_enc_conv(c@));
    }
}

/// Encodes a whole snapshot list.
pub fn encode_conversations(cs: &Vec<Conversation>) -> (r: Vec<u8>)
    ensures
        r@ == spec_enc_conv_list(cs@.map_values(|c: Conversation| c@)),
{
    let ghost views = cs@.map_values(|c: Conversation| c@);
    let mut out: Vec<u8> = Vec::new();
    let count = u64_to_dec(cs.len() as u64);
    append_bytes(&mut out, &count);
    out.push(COLON);
    let ghost header = out@;
    let mut i: usize = 0;
    while i < cs.len()
        invariant
            0 <= i <= cs@.len(),
            views == cs@.map_values(|c: Conversation| c@),
            header == dec_digits(views.len()) + seq![COLON],
            out@ == header + spec_enc_conv_seq(views.subrange(0, i as int)),
        decreases cs@.len() - i,
    {
        enc_conv(&mut out, &cs[i]);
        i += 1;
        proof {
            assert(views.subrange(0, i as int) =~= views.subrange(0, i - 1 as int).push(
                views[i - 1],
            ));
            lemma_enc_conv_seq_snoc(views.subrange(0, i - 1 as int), views[i - 1]);
            assert(views[i - 1] == cs@[i - 1]@);
            assert(out@ =~= header + spec_enc_conv_seq(views.subrange(0, i as int)));
        }
    }
    proof {
        assert(views.subrange(0, views.len() as int) =~= views);
        assert(out@ =~= spec_enc_conv_list(views));
    }
    out
}

// ---------------------------------------------------------------------------
// Executable decoding
// ---------------------------------------------------------------------------
/// The models of a vector of chat messages.
pub open spec fn chat_views(ms: Seq<ChatMessage>) -> Seq<SpecChatMessage> {
    ms.map_values(|m: ChatMessage| m@)
}

/// The models of a vector of conversations.
pub open spec fn conv_views(cs: Seq<Conversation>) -> Seq<SpecConversation> {
    cs.map_values(|c: Conversation| c@)
}

/// Reads a decimal count followed by ':'. A `None` means the input has no
/// such count, or its value does not fit a `u64` (and then no later stage
/// can succeed either, the input being shorter than that).
pub fn p_count(s: &Vec<u8>, pos: usize) -> (r: Option<(u64, usize)>)
    requires
        pos <= s@.len(),
    ensures
        match r {
            Some((v, q)) => pos <= q <= s@.len() && spec_parse_count(suffix(s@, pos as int))
                == Some((v as int, suffix(s@, q as int))),
            None => spec_parse_count(suffix(s@, pos as int)) matches Some((v, rest)) ==> v
                > u64::MAX,
        },
{
    let ghost t = suffix(s@, pos as int);
    let mut k: usize = pos;
    while k < s.len() && s[k] >= 48 && s[k] <= 57
        invariant
            pos <= k <= s@.len(),
            forall|j: int| pos <= j < k ==> is_ascii_digit(#[trigger] s@[j]),
        decreases s@.len() - k,
    {
        k += 1;
    }
    proof {
        assert forall|j: int| 0 <= j < k - pos implies is_ascii_digit(#[trigger] t[j]) by {
            assert(t[j] == s@[j + pos]);
        }
        if k - pos < t.len() {
            assert(t[k - pos] == s@[k as int]);
        }
        lemma_digit_prefix_from_char(t, k as int - pos);
    }
    if k == pos {
        return None;
    }
    if k == s.len() {
        return None;
    }
    if s[k] != COLON {
        proof {
            assert(t[k - pos] == s@[k as int]);
        }
        return None;
    }
    let digits = bytes_range(s, pos, k);
    proof {
        assert(digits@ =~= t.subrange(0, k - pos));
        assert(t[k - pos] == s@[k as int]);
    }
    match parse_u64_dec(&digits) {
        None => {
            proof {
                assert(all_digits(digits@));
            }
            None
        },
        Some(v) => {
            proof {
                assert(t.subrange(k - pos + 1 as int, t.len() as int) =~= suffix(
                    s@,
                    k as int + 1,
                ));
            }
            Some((v, k + 1))
        },
    }
}

/// Reads a length-prefixed run of bytes.
pub fn p_nstr(s: &Vec<u8>, pos: usize) -> (r: Option<(Vec<u8>, usize)>)
    requires
        pos <= s@.len(),
    ensures
        match r {
            Some((b, q)) => pos <= q <= s@.len() && spec_parse_nstr(suffix(s@, pos as int))
                == Some((b@, suffix(s@, q as int))),
            None => spec_parse_nstr(suffix(s@, pos as int)) is None,
        },
{
    let ghost t = suffix(s@, pos as int);
    let total = s.len();
    match p_count(s, pos) {
        None => {
            proof {
                if let Some((v, rest)) = spec_parse_count(t) {
                    assert(rest.len() <= t.len() <= s@.len());
                }
            }
            None
        },
        Some((v, q)) => {
            let rem = total - q;
            if v > rem as u64 {
                None
            } else {
                let vus = v as usize;
                let b = bytes_range(s, q, q + vus);
                proof {
                    let rest = suffix(s@, q as int);
                    assert(rest.subrange(0, v as int) =~= s@.subrange(q as int, q + vus as int));
                    assert(rest.subrange(v as int, rest.len() as int) =~= suffix(
                        s@,
                        q + vus as int,
                    ));
                }
                Some((b, q + vus))
            }
        },
    }
}

/// Reads a string field.
pub fn p_str(s: &Vec<u8>, pos: usize) -> (r: Option<(String, usize)>)
    requires
        pos <= s@.len(),
    ensures
        match r {
            Some((st, q)) => pos <= q <= s@.len() && spec_parse_str(suffix(s@, pos as int))
                == Some((st@, suffix(s@, q as int))),
            None => spec_parse_str(suffix(s@, pos as int)) is None,
        },
{
    match p_nstr(s, pos) {
        None => None,
        Some((b, q)) => {
            let ghost bv = b@;
            match bytes_to_string(b) {
                None => None,
                Some(st) => Some((st, q)),
            }
        },
    }
}

/// Reads a boolean field.
pub fn p_bool(s: &Vec<u8>, pos: usize) -> (r: Option<(bool, usize)>)
    requires
        pos <= s@.len(),
    ensures
        match r {
            Some((v, q)) => pos <= q <= s@.len() && spec_parse_bool(suffix(s@, pos as int))
                == Some((v, suffix(s@, q as int))),
            None => spec_parse_bool(suffix(s@, pos as int)) is None,
        },
{
    let ghost t = suffix(s@, pos as int);
    proof {
        if t.len() > 0 {
            assert(t[0] == s@[pos as int]);
            assert(t.drop_first() =~= suffix(s@, pos as int + 1));
        }
    }
    if pos < s.len() && s[pos] == 49 {
        Some((true, pos + 1))
    } else if pos < s.len() && s[pos] == 48 {
        Some((false, pos + 1))
    } else {
        None
    }
}

/// Reads a message-type field.
pub fn p_msgtype(s: &Vec<u8>, pos: usize) -> (r: Option<(MessageType, usize)>)
    requires
        pos <= s@.len(),
    ensures
        match r {
            Some((v, q)) => pos <= q <= s@.len() && spec_parse_msgtype(suffix(s@, pos as int))
                == Some((v, suffix(s@, q as int))),
            None => spec_parse_msgtype(suffix(s@, pos as int)) is None,
        },
{
    let ghost t = suffix(s@, pos as int);
    proof {
        if t.len() > 0 {
            assert(t[0] == s@[pos as int]);
            assert(t.drop_first() =~= suffix(s@, pos as int + 1));
        }
    }
    if pos < s.len() && s[pos] == 81 {
        Some((MessageType::Question, pos + 1))
    } else if pos < s.len() && s[pos] == 82 {
        Some((MessageType::Response, pos + 1))
    } else {
        None
    }
}

/// Reads a host descriptor.
pub fn p_host(s: &Vec<u8>, pos: usize) -> (r: Option<(HostInfo, usize)>)
    requires
        pos <= s@.len(),
    ensures
        match r {
            Some((h, q)) => pos <= q <= s@.len() && spec_parse_host(suffix(s@, pos as int))
                == Some((h@, suffix(s@, q as int))),
            None => spec_parse_host(suffix(s@, pos as int)) is None,
        },
{
    match p_str(s, pos) {
        None => None,
        Some((hostname, p1)) => match p_str(s, p1) {
            None => None,
            Some((ip_address, p2)) => match p_bool(s, p2) {
                None => None,
                Some((is_llm_host, p3)) => Some(
                    (HostInfo { hostname, ip_address, is_llm_host }, p3),
                ),
            },
        },
    }
}

/// Reads one chat message.
pub fn p_chat(s: &Vec<u8>, pos: usize) -> (r: Option<(ChatMessage, usize)>)
    requires
        pos <= s@.len(),
    ensures
        match r {
            Some((m, q)) => pos <= q <= s@.len() && spec_parse_chat(suffix(s@, pos as int))
                == Some((m@, suffix(s@, q as int))),
            None => spec_parse_chat(suffix(s@, pos as int)) is None,
        },
{
    match p_str(s, pos) {
        None => None,
        Some((content, p1)) => match p_str(s, p1) {
            None => None,
            Some((timestamp, p2)) => match p_str(s, p2) {
                None => None,
                Some((sender, p3)) => match p_msgtype(s, p3) {
                    None => None,
                    Some((message_type, p4)) => match p_host(s, p4) {
                        None => None,
                        Some((host_info, p5)) => Some(
                            (
                                ChatMessage {
                                    content,
                                    timestamp,
                                    sender,
                                    message_type,
                                    host_info,
                                },
                                p5,
                            ),
                        ),
                    },
                },
            },
        },
    }
}

/// Prepends already-parsed messages to a parse outcome.
pub open spec fn prepend_chats(
    pre: Seq<SpecChatMessage>,
    r: Option<(Seq<SpecChatMessage>, Seq<u8>)>,
) -> Option<(Seq<SpecChatMessage>, Seq<u8>)> {
    match r {
        None => None,
        Some((ms, rest)) => Some((pre + ms, rest)),
    }
}

/// Reads exactly `n` chat messages.
pub fn p_chat_list(s: &Vec<u8>, pos: usize, n: u64) -> (r: Option<(Vec<ChatMessage>, usize)>)
    requires
        pos <= s@.len(),
    ensures
        match r {
            Some((ms, q)) => pos <= q <= s@.len() && spec_parse_chat_seq(
                suffix(s@, pos as int),
                n as nat,
            ) == Some((chat_views(ms@), suffix(s@, q as int))),
            None => spec_parse_chat_seq(suffix(s@, pos as int), n as nat) is None,
        },
{
    let mut acc: Vec<ChatMessage> = Vec::new();
    let mut cur: usize = pos;
    let mut i: u64 = 0;
    while i < n
        invariant
            0 <= i <= n,
            pos <= cur <= s@.len(),
            acc@.len() == i,
            spec_parse_chat_seq(suffix(s@, pos as int), n as nat) == prepend_chats(
                chat_views(acc@),
                spec_parse_chat_seq(suffix(s@, cur as int), (n - i) as nat),
            ),
        decreases n - i,
    {
        let ghost pre = chat_views(acc@);
        match p_chat(s, cur) {
            None => {
                return None;
            },
            Some((m, q)) => {
                proof {
                    let inner = spec_parse_chat_seq(suffix(s@, q as int), (n - i - 1) as nat);
                    assert(spec_parse_chat_seq(suffix(s@, cur as int), (n - i) as nat)
                        == prepend_chats(seq![m@], inner));
                    if let Some((ms2, r2)) = inner {
                        assert(pre + (seq![m@] + ms2) =~= (pre + seq![m@]) + ms2);
                    }
                    assert(chat_views(acc@.push(m)) =~= pre + seq![m@]);
                }
                acc.push(m);
                cur = q;
                i += 1;
            },
        }
    }
    proof {
        assert(chat_views(acc@) + Seq::<SpecChatMessage>::empty() =~= chat_views(acc@));
    }
    Some((acc, cur))
}

/// Reads one conversation.
pub fn p_conv(s: &Vec<u8>, pos: usize) -> (r: Option<(Conversation, usize)>)
    requires
        pos <= s@.len(),
    ensures
        match r {
            Some((c, q)) => pos <= q <= s@.len() && spec_parse_conv(suffix(s@, pos as int))
                == Some((c@, suffix(s@, q as int))),
            None => spec_parse_conv(suffix(s@, pos as int)) is None,
        },
{
    match p_str(s, pos) {
        None => None,
        Some((id, p1)) => {
            match p_count(s, p1) {
                None => {
                    proof {
                        let t1 = suffix(s@, p1 as int);
                        assert(s@.len() <= usize::MAX) by {
                            assert(s.len() == s@.len());
                        }
                        if let Some((v, s2)) = spec_parse_count(t1) {
                            lemma_parse_count_nonneg(t1);
                            assert(v > u64::MAX);
                            assert(s2.len() <= s@.len());
                            lemma_parse_chat_seq_progress(s2, v as nat);
                            assert(spec_parse_chat_seq(s2, v as nat) is None);
                        }
                    }
                    None
                },
                Some((n, p2)) => {
                    match p_chat_list(s, p2, n) {
                        None => None,
                        Some((messages, p3)) => match p_host(s, p3) {
                            None => None,
                            Some((host_info, p4)) => {
                                let c = Conversation { id, messages, host_info };
                                proof {
                                    assert(c@.messages =~= chat_views(c.messages@));
                                }
                                Some((c, p4))
                            },
                        },
                    }
                },
            }
        },
    }
}

/// Prepends already-parsed conversations to a parse outcome.
pub open spec fn prepend_convs(
    pre: Seq<SpecConversation>,
    r: Option<(Seq<SpecConversation>, Seq<u8>)>,
) -> Option<(Seq<SpecConversation>, Seq<u8>)> {
    match r {
        None => None,
        Some((cs, rest)) => Some((pre + cs, rest)),
    }
}

/// Reads exactly `n` conversations.
pub fn p_conv_seq(s: &Vec<u8>, pos: usize, n: u64) -> (r: Option<(Vec<Conversation>, usize)>)
    requires
        pos <= s@.len(),
    ensures
        match r {
            Some((cs, q)) => pos <= q <= s@.len() && spec_parse_conv_seq(
                suffix(s@, pos as int),
                n as nat,
            ) == Some((conv_views(cs@), suffix(s@, q as int))),
            None => spec_parse_conv_seq(suffix(s@, pos as int), n as nat) is None,
        },
{
    let mut acc: Vec<Conversation> = Vec::new();
    let mut cur: usize = pos;
    let mut i: u64 = 0;
    while i < n
        invariant
            0 <= i <= n,
            pos <= cur <= s@.len(),
            acc@.len() == i,
            spec_parse_conv_seq(suffix(s@, pos as int), n as nat) == prepend_convs(
                conv_views(acc@),
                spec_parse_conv_seq(suffix(s@, cur as int), (n - i) as nat),
            ),
        decreases n - i,
    {
        let ghost pre = conv_views(acc@);
        match p_conv(s, cur) {
            None => {
                return None;
            },
            Some((c, q)) => {
                proof {
                    let inner = spec_parse_conv_seq(suffix(s@, q as int), (n - i - 1) as nat);
                    assert(spec_parse_conv_seq(suffix(s@, cur as int), (n - i) as nat)
                        == prepend_convs(seq![c@], inner));
                    if let Some((cs2, r2)) = inner {
                        assert(pre + (seq![c@] + cs2) =~= (pre + seq![c@]) + cs2);
                    }
                    assert(conv_views(acc@.push(c)) =~= pre + seq![c@]);
                }
                acc.push(c);
                cur = q;
                i += 1;
            },
        }
    }
    proof {
        assert(conv_views(acc@) + Seq::<SpecConversation>::empty() =~= conv_views(acc@));
    }
    Some((acc, cur))
}

/// Decodes a whole snapshot list; the payload must be consumed exactly.
pub fn decode_conversations(s: &Vec<u8>) -> (r: Option<Vec<Conversation>>)
    ensures
        match r {
            Some(cs) => spec_parse_conv_list(s@) == Some(conv_views(cs@)),
            None => spec_parse_conv_list(s@) is None,
        },
{
    proof {
        assert(suffix(s@, 0) =~= s@);
    }
    match p_count(s, 0) {
        None => {
            proof {
                assert(s@.len() <= usize::MAX) by {
                    assert(s.len() == s@.len());
                }
                if let Some((v, rest)) = spec_parse_count(s@) {
                    lemma_parse_count_nonneg(s@);
                    assert(v > u64::MAX);
                    assert(rest.len() <= s@.len());
                    lemma_parse_conv_seq_progress(rest, v as nat);
                    assert(spec_parse_conv_seq(rest, v as nat) is None);
                }
            }
            None
        },
        Some((n, p1)) => {
            match p_conv_seq(s, p1, n) {
                None => None,
                Some((cs, q)) => {
                    if q == s.len() {
                        proof {
                            assert(suffix(s@, q as int).len() == 0);
                            assert(spec_parse_count(s@) == Some((n as int, suffix(s@, p1 as int))));
                            assert((n as int) as nat == n as nat);
                            assert(spec_parse_conv_seq(suffix(s@, p1 as int), n as nat) == Some(
                                (conv_views(cs@), suffix(s@, q as int)),
                            ));
                        }
                        Some(cs)
                    } else {
                        proof {
                            assert(suffix(s@, q as int).len() > 0);
                        }
                        None
                    }
                },
            }
        },
    }
}

/// What one conversation's bytes say, when they say it exactly.
pub open spec fn spec_parse_conv_exact(s: Seq<u8>) -> Option<SpecConversation> {
    match spec_parse_conv(s) {
        Some((c, rest)) => if rest.len() == 0 {
            Some(c)
        } else {
            None
        },
        None => None,
    }
}

/// Encodes one conversation snapshot, as it travels in a conversation-file
/// message.
pub fn conversation_to_bytes(c: &Conversation) -> (r: Vec<u8>)
    ensures
        r@ == spec_enc_conv(c@),
{
    let mut out: Vec<u8> = Vec::new();
    enc_conv(&mut out, c);
    out
}

/// Decodes one conversation snapshot; the bytes must be consumed exactly.
pub fn conversation_from_bytes(v: &Vec<u8>) -> (r: Option<Conversation>)
    ensures
        match r {
            Some(c) => spec_parse_conv_exact(v@) == Some(c@),
            None => spec_parse_conv_exact(v@) is None,
        },
{
    proof {
        assert(suffix(v@, 0) =~= v@);
    }
    match p_conv(v, 0) {
        None => None,
        Some((c, q)) => {
            if q == v.len() {
                proof {
                    assert(suffix(v@, q as int).len() == 0);
                }
                Some(c)
            } else {
                proof {
                    assert(suffix(v@, q as int).len() > 0);
                }
                None
            }
        },
    }
}

/// Decoding one conversation inverts encoding it.
pub proof fn lemma_conversation_round_trip(c: SpecConversation)
    ensures
        spec_parse_conv_exact(spec_enc_conv(c)) == Some(c),
{
    lemma_parse_conv(c, Seq::empty());
    assert(spec_enc_conv(c) + Seq::<u8>::empty() =~= spec_enc_conv(c));
}

} // verus!
