//! The wire format of messages. A frame is the body's length in four bytes,
//! most significant first, then the body: one tag byte naming the variant,
//! then its fields in order. Integers are little-endian (`u16` in two bytes,
//! `i64` in eight); byte strings, texts (as UTF-8) and lists carry a
//! four-byte length first; an optional field is a zero byte, or a one byte
//! and the value. Parsing the encoding of a message gives it back.
use vstd::prelude::*;
use vstd::utf8::{decode_utf8, encode_utf8, encode_utf8_decode_utf8, encode_utf8_valid_utf8, valid_utf8};

use crate::endpoint::Endpoint;
use crate::id::{be_value, lemma_pow256_monotonic, pow256, Id, MAX_ID_LENGTH_IN_BYTES};
use crate::message::{
    view_opt_bytes, view_opt_sources, view_sources, Message, MessageId, MessageView, Source,
    SourceView,
};

verus! {

broadcast use {encode_utf8_decode_utf8, encode_utf8_valid_utf8};

/// Largest length that a four-byte length field holds.
pub const MAX_FIELD_LENGTH: u64 = 0xffff_ffff;

// ---------------------------------------------------------------------
// Integers
// ---------------------------------------------------------------------

/// The `n` bytes of `x`, least significant first.
pub open spec fn le_bytes(x: nat, n: nat) -> Seq<u8>
    decreases n,
{
    if n == 0 {
        Seq::empty()
    } else {
        seq![(x % 256) as u8] + le_bytes(x / 256, (n - 1) as nat)
    }
}

/// The number that bytes spell least significant first.
pub open spec fn le_value(s: Seq<u8>) -> nat
    decreases s.len(),
{
    if s.len() == 0 {
        0
    } else {
        s[0] as nat + 256 * le_value(s.drop_first())
    }
}

/// The `n` bytes of `x`, most significant first.
pub open spec fn be_bytes(x: nat, n: nat) -> Seq<u8>
    decreases n,
{
    if n == 0 {
        Seq::empty()
    } else {
        be_bytes(x / 256, (n - 1) as nat).push((x % 256) as u8)
    }
}

proof fn lemma_div_256_bound(x: nat, n: nat)
    requires
        n > 0,
        x < pow256(n),
    ensures
        x / 256 < pow256((n - 1) as nat),
        x == 256 * (x / 256) + x % 256,
{
    let p = pow256((n - 1) as nat);
    assert(x < 256 * p);
    assert(x / 256 < p) by (nonlinear_arith)
        requires
            x < 256 * p,
    ;
}

pub proof fn lemma_le_round_trip(x: nat, n: nat)
    requires
        x < pow256(n),
    ensures
        le_bytes(x, n).len() == n,
        le_value(le_bytes(x, n)) == x,
    decreases n,
{
    if n > 0 {
        lemma_div_256_bound(x, n);
        lemma_le_round_trip(x / 256, (n - 1) as nat);
        assert(le_bytes(x, n).drop_first() =~= le_bytes(x / 256, (n - 1) as nat));
    }
}

pub proof fn lemma_le_value_bound(s: Seq<u8>)
    ensures
        le_value(s) < pow256(s.len()),
    decreases s.len(),
{
    if s.len() > 0 {
        lemma_le_value_bound(s.drop_first());
        let p = pow256((s.len() - 1) as nat);
        let v = le_value(s.drop_first());
        let h = s[0] as nat;
        assert(h + 256 * v < 256 * p) by (nonlinear_arith)
            requires
                h < 256,
                v < p,
        ;
    }
}

proof fn lemma_be_value_push(s: Seq<u8>, b: u8)
    ensures
        be_value(s.push(b)) == 256 * be_value(s) + b as nat,
    decreases s.len(),
{
    if s.len() > 0 {
        lemma_be_value_push(s.drop_first(), b);
        assert(s.push(b).drop_first() =~= s.drop_first().push(b));
        let p = pow256((s.len() - 1) as nat);
        let h = s[0] as nat;
        assert(pow256(s.len()) == 256 * p);
        assert(s.push(b)[0] == s[0]);
        assert(be_value(s.push(b)) == h * pow256(s.len()) + be_value(s.drop_first().push(b)));
        assert(be_value(s) == h * p + be_value(s.drop_first()));
        let x = be_value(s.drop_first());
        assert(h * (256 * p) == 256 * (h * p)) by (nonlinear_arith);
        assert(256 * (h * p + x) == 256 * (h * p) + 256 * x) by (nonlinear_arith);
    } else {
        assert(s.push(b).drop_first() =~= Seq::<u8>::empty());
        assert(pow256(0) == 1);
        assert(be_value(s.push(b)) == (b as nat) * 1 + be_value(Seq::<u8>::empty()));
    }
}

pub proof fn lemma_be_round_trip(x: nat, n: nat)
    requires
        x < pow256(n),
    ensures
        be_bytes(x, n).len() == n,
        be_value(be_bytes(x, n)) == x,
    decreases n,
{
    if n > 0 {
        lemma_div_256_bound(x, n);
        lemma_be_round_trip(x / 256, (n - 1) as nat);
        lemma_be_value_push(be_bytes(x / 256, (n - 1) as nat), (x % 256) as u8);
    }
}

proof fn lemma_pow256_values()
    ensures
        pow256(1) == 0x100,
        pow256(2) == 0x1_0000,
        pow256(4) == 0x1_0000_0000,
        pow256(8) == 0x1_0000_0000_0000_0000,
{
    reveal_with_fuel(pow256, 9);
}

// ---------------------------------------------------------------------
// Encoding
// ---------------------------------------------------------------------

/// A length field: four bytes, least significant first.
pub open spec fn enc_len(n: nat) -> Seq<u8> {
    le_bytes(n, 4)
}

/// A byte string: its length, then its bytes.
pub open spec fn enc_bytes(b: Seq<u8>) -> Seq<u8> {
    enc_len(b.len()) + b
}

/// A text: its UTF-8 bytes as a byte string.
pub open spec fn enc_string(s: Seq<char>) -> Seq<u8> {
    enc_bytes(encode_utf8(s))
}

pub open spec fn enc_u16(x: u16) -> Seq<u8> {
    le_bytes(x as nat, 2)
}

pub open spec fn enc_i64(x: i64) -> Seq<u8> {
    le_bytes((x as u64) as nat, 8)
}

/// An optional message identifier: a zero byte, or a one byte and the
/// identifier.
pub open spec fn enc_opt_id(o: Option<MessageId>) -> Seq<u8> {
    match o {
        None => seq![0u8],
        Some(x) => seq![1u8] + enc_i64(x),
    }
}

/// An optional byte string: a zero byte, or a one byte and the string.
pub open spec fn enc_opt_bytes(o: Option<Seq<u8>>) -> Seq<u8> {
    match o {
        None => seq![0u8],
        Some(b) => seq![1u8] + enc_bytes(b),
    }
}

/// A source: the endpoint's host and port, then the node identifier.
pub open spec fn enc_source(s: SourceView) -> Seq<u8> {
    enc_string(s.0.0) + enc_u16(s.0.1) + enc_bytes(s.1)
}

/// The sources of a list one after another.
pub open spec fn enc_source_items(l: Seq<SourceView>) -> Seq<u8>
    decreases l.len(),
{
    if l.len() == 0 {
        Seq::empty()
    } else {
        enc_source(l[0]) + enc_source_items(l.drop_first())
    }
}

/// A list of sources: its length, then the sources.
pub open spec fn enc_sources(l: Seq<SourceView>) -> Seq<u8> {
    enc_len(l.len()) + enc_source_items(l)
}

/// An optional list of sources: a zero byte, or a one byte and the list.
pub open spec fn enc_opt_sources(o: Option<Seq<SourceView>>) -> Seq<u8> {
    match o {
        None => seq![0u8],
        Some(l) => seq![1u8] + enc_sources(l),
    }
}

/// The body of a message: one tag byte naming the variant, then its fields
/// in order.
pub open spec fn enc_message(m: MessageView) -> Seq<u8> {
    match m {
        MessageView::Store { key, key_id, value, source } => seq![0u8] + enc_bytes(key) + enc_bytes(
            key_id,
        ) + enc_bytes(value) + enc_source(source),
        MessageView::AddNode { source } => seq![1u8] + enc_source(source),
        MessageView::FindValue { source, message_id, key, key_id } => seq![2u8] + enc_source(source)
            + enc_opt_id(message_id) + enc_bytes(key) + enc_bytes(key_id),
        MessageView::FindValueReply { message_id, value, neighbors } => seq![3u8] + enc_i64(
            message_id,
        ) + enc_opt_bytes(value) + enc_opt_sources(neighbors),
        MessageView::FindNode { source, message_id, node_id } => seq![4u8] + enc_source(source)
            + enc_opt_id(message_id) + enc_bytes(node_id),
        MessageView::FindNodeReply { message_id, neighbors } => seq![5u8] + enc_i64(message_id)
            + enc_sources(neighbors),
        MessageView::Ping { message_id, from } => seq![6u8] + enc_opt_id(message_id) + enc_source(
            from,
        ),
        MessageView::PingReply { message_id, to } => seq![7u8] + enc_i64(message_id) + enc_source(
            to,
        ),
        MessageView::ShutDown => seq![8u8],
    }
}

/// A frame: the body's length in four bytes, most significant first, then
/// the body.
pub open spec fn enc_frame(m: MessageView) -> Seq<u8> {
    be_bytes(enc_message(m).len(), 4) + enc_message(m)
}

// ---------------------------------------------------------------------
// What can be encoded
// ---------------------------------------------------------------------

pub open spec fn bytes_fit(b: Seq<u8>) -> bool {
    b.len() <= MAX_FIELD_LENGTH
}

pub open spec fn id_fits(b: Seq<u8>) -> bool {
    b.len() <= MAX_ID_LENGTH_IN_BYTES
}

pub open spec fn source_fits(s: SourceView) -> bool {
    bytes_fit(encode_utf8(s.0.0)) && id_fits(s.1)
}

pub open spec fn sources_fit(l: Seq<SourceView>) -> bool {
    l.len() <= MAX_FIELD_LENGTH && forall|i: int| 0 <= i < l.len() ==> source_fits(#[trigger] l[i])
}

/// Every length field of the message fits in four bytes, and every
/// identifier within the identifier bound.
pub open spec fn message_fits(m: MessageView) -> bool {
    match m {
        MessageView::Store { key, key_id, value, source } => bytes_fit(key) && id_fits(key_id)
            && bytes_fit(value) && source_fits(source),
        MessageView::AddNode { source } => source_fits(source),
        MessageView::FindValue { source, message_id, key, key_id } => source_fits(source)
            && bytes_fit(key) && id_fits(key_id),
        MessageView::FindValueReply { message_id, value, neighbors } => (match value {
            Some(v) => bytes_fit(v),
            None => true,
        }) && (match neighbors {
            Some(l) => sources_fit(l),
            None => true,
        }),
        MessageView::FindNode { source, message_id, node_id } => source_fits(source) && id_fits(
            node_id,
        ),
        MessageView::FindNodeReply { message_id, neighbors } => sources_fit(neighbors),
        MessageView::Ping { message_id, from } => source_fits(from),
        MessageView::PingReply { message_id, to } => source_fits(to),
        MessageView::ShutDown => true,
    }
}

/// The message can be framed: its fields fit and so does its body length.
pub open spec fn frame_fits(m: MessageView) -> bool {
    message_fits(m) && enc_message(m).len() <= MAX_FIELD_LENGTH
}

// ---------------------------------------------------------------------
// Parsing: each parser returns what it read and the bytes after it
// ---------------------------------------------------------------------

pub open spec fn parse_u8(s: Seq<u8>) -> Option<(u8, Seq<u8>)> {
    if s.len() >= 1 {
        Some((s[0], s.skip(1)))
    } else {
        None
    }
}

pub open spec fn parse_le(s: Seq<u8>, n: nat) -> Option<(nat, Seq<u8>)> {
    if s.len() >= n {
        Some((le_value(s.take(n as int)), s.skip(n as int)))
    } else {
        None
    }
}

#[verifier::opaque]
pub open spec fn parse_u16(s: Seq<u8>) -> Option<(u16, Seq<u8>)> {
    match parse_le(s, 2) {
        Some((v, r)) => Some((v as u16, r)),
        None => None,
    }
}

#[verifier::opaque]
pub open spec fn parse_i64(s: Seq<u8>) -> Option<(i64, Seq<u8>)> {
    match parse_le(s, 8) {
        Some((v, r)) => Some(((v as u64) as i64, r)),
        None => None,
    }
}

#[verifier::opaque]
pub open spec fn parse_bytes(s: Seq<u8>) -> Option<(Seq<u8>, Seq<u8>)> {
    match parse_le(s, 4) {
        Some((n, r)) => if r.len() >= n {
            Some((r.take(n as int), r.skip(n as int)))
        } else {
            None
        },
        None => None,
    }
}

#[verifier::opaque]
pub open spec fn parse_string(s: Seq<u8>) -> Option<(Seq<char>, Seq<u8>)> {
    match parse_bytes(s) {
        Some((b, r)) => if valid_utf8(b) {
            Some((decode_utf8(b), r))
        } else {
            None
        },
        None => None,
    }
}

#[verifier::opaque]
pub open spec fn parse_id(s: Seq<u8>) -> Option<(Seq<u8>, Seq<u8>)> {
    match parse_bytes(s) {
        Some((b, r)) => if id_fits(b) {
            Some((b, r))
        } else {
            None
        },
        None => None,
    }
}

#[verifier::opaque]
pub open spec fn parse_opt_id(s: Seq<u8>) -> Option<(Option<MessageId>, Seq<u8>)> {
    match parse_u8(s) {
        Some((t, r)) => if t == 0 {
            Some((None, r))
        } else if t == 1 {
            match parse_i64(r) {
                Some((x, r2)) => Some((Some(x), r2)),
                None => None,
            }
        } else {
            None
        },
        None => None,
    }
}

#[verifier::opaque]
pub open spec fn parse_opt_bytes(s: Seq<u8>) -> Option<(Option<Seq<u8>>, Seq<u8>)> {
    match parse_u8(s) {
        Some((t, r)) => if t == 0 {
            Some((None, r))
        } else if t == 1 {
            match parse_bytes(r) {
                Some((b, r2)) => Some((Some(b), r2)),
                None => None,
            }
        } else {
            None
        },
        None => None,
    }
}

#[verifier::opaque]
pub open spec fn parse_source(s: Seq<u8>) -> Option<(SourceView, Seq<u8>)> {
    match parse_string(s) {
        Some((host, r1)) => match parse_u16(r1) {
            Some((port, r2)) => match parse_id(r2) {
                Some((id, r3)) => Some((((host, port), id), r3)),
                None => None,
            },
            None => None,
        },
        None => None,
    }
}

/// Parses `n` sources one after another.
#[verifier::opaque]
pub open spec fn parse_source_items(s: Seq<u8>, n: nat) -> Option<(Seq<SourceView>, Seq<u8>)>
    decreases n,
{
    if n == 0 {
        Some((Seq::empty(), s))
    } else {
        match parse_source(s) {
            Some((x, r)) => match parse_source_items(r, (n - 1) as nat) {
                Some((xs, r2)) => Some((seq![x] + xs, r2)),
                None => None,
            },
            None => None,
        }
    }
}

#[verifier::opaque]
pub open spec fn parse_sources(s: Seq<u8>) -> Option<(Seq<SourceView>, Seq<u8>)> {
    match parse_le(s, 4) {
        Some((n, r)) => parse_source_items(r, n),
        None => None,
    }
}

#[verifier::opaque]
pub open spec fn parse_opt_sources(s: Seq<u8>) -> Option<(Option<Seq<SourceView>>, Seq<u8>)> {
    match parse_u8(s) {
        Some((t, r)) => if t == 0 {
            Some((None, r))
        } else if t == 1 {
            match parse_sources(r) {
                Some((l, r2)) => Some((Some(l), r2)),
                None => None,
            }
        } else {
            None
        },
        None => None,
    }
}

#[verifier::opaque]
pub open spec fn parse_store(s: Seq<u8>) -> Option<(MessageView, Seq<u8>)> {
    match parse_bytes(s) {
        Some((key, r1)) => match parse_id(r1) {
            Some((key_id, r2)) => match parse_bytes(r2) {
                Some((value, r3)) => match parse_source(r3) {
                    Some((source, r4)) => Some((MessageView::Store { key, key_id, value, source }, r4)),
                    None => None,
                },
                None => None,
            },
            None => None,
        },
        None => None,
    }
}

#[verifier::opaque]
pub open spec fn parse_add_node(s: Seq<u8>) -> Option<(MessageView, Seq<u8>)> {
    match parse_source(s) {
        Some((source, r1)) => Some((MessageView::AddNode { source }, r1)),
        None => None,
    }
}

#[verifier::opaque]
pub open spec fn parse_find_value(s: Seq<u8>) -> Option<(MessageView, Seq<u8>)> {
    match parse_source(s) {
        Some((source, r1)) => match parse_opt_id(r1) {
            Some((message_id, r2)) => match parse_bytes(r2) {
                Some((key, r3)) => match parse_id(r3) {
                    Some((key_id, r4)) => Some(
                        (MessageView::FindValue { source, message_id, key, key_id }, r4),
                    ),
                    None => None,
                },
                None => None,
            },
            None => None,
        },
        None => None,
    }
}

#[verifier::opaque]
pub open spec fn parse_find_value_reply(s: Seq<u8>) -> Option<(MessageView, Seq<u8>)> {
    match parse_i64(s) {
        Some((message_id, r1)) => match parse_opt_bytes(r1) {
            Some((value, r2)) => match parse_opt_sources(r2) {
                Some((neighbors, r3)) => Some(
                    (MessageView::FindValueReply { message_id, value, neighbors }, r3),
                ),
                None => None,
            },
            None => None,
        },
        None => None,
    }
}

#[verifier::opaque]
pub open spec fn parse_find_node(s: Seq<u8>) -> Option<(MessageView, Seq<u8>)> {
    match parse_source(s) {
        Some((source, r1)) => match parse_opt_id(r1) {
            Some((message_id, r2)) => match parse_id(r2) {
                Some((node_id, r3)) => Some((MessageView::FindNode { source, message_id, node_id }, r3)),
                None => None,
            },
            None => None,
        },
        None => None,
    }
}

#[verifier::opaque]
pub open spec fn parse_find_node_reply(s: Seq<u8>) -> Option<(MessageView, Seq<u8>)> {
    match parse_i64(s) {
        Some((message_id, r1)) => match parse_sources(r1) {
            Some((neighbors, r2)) => Some((MessageView::FindNodeReply { message_id, neighbors }, r2)),
            None => None,
        },
        None => None,
    }
}

#[verifier::opaque]
pub open spec fn parse_ping(s: Seq<u8>) -> Option<(MessageView, Seq<u8>)> {
    match parse_opt_id(s) {
        Some((message_id, r1)) => match parse_source(r1) {
            Some((from, r2)) => Some((MessageView::Ping { message_id, from }, r2)),
            None => None,
        },
        None => None,
    }
}

#[verifier::opaque]
pub open spec fn parse_ping_reply(s: Seq<u8>) -> Option<(MessageView, Seq<u8>)> {
    match parse_i64(s) {
        Some((message_id, r1)) => match parse_source(r1) {
            Some((to, r2)) => Some((MessageView::PingReply { message_id, to }, r2)),
            None => None,
        },
        None => None,
    }
}

/// The fields of the message variant named by `tag`.
pub open spec fn parse_body(tag: u8, s: Seq<u8>) -> Option<(MessageView, Seq<u8>)> {
    if tag == 0 {
        parse_store(s)
    } else if tag == 1 {
        parse_add_node(s)
    } else if tag == 2 {
        parse_find_value(s)
    } else if tag == 3 {
        parse_find_value_reply(s)
    } else if tag == 4 {
        parse_find_node(s)
    } else if tag == 5 {
        parse_find_node_reply(s)
    } else if tag == 6 {
        parse_ping(s)
    } else if tag == 7 {
        parse_ping_reply(s)
    } else if tag == 8 {
        Some((MessageView::ShutDown, s))
    } else {
        None
    }
}

/// A message: a tag byte, then the fields of that variant.
pub open spec fn parse_message(s: Seq<u8>) -> Option<(MessageView, Seq<u8>)> {
    match parse_u8(s) {
        Some((tag, r0)) => parse_body(tag, r0),
        None => None,
    }
}

/// The message a frame holds: four bytes give the body's length, most
/// significant first, and the body must be exactly one message. Bytes
/// after the body are not looked at.
pub open spec fn parse_frame(s: Seq<u8>) -> Option<MessageView> {
    if s.len() < 4 {
        None
    } else {
        let n = be_value(s.take(4));
        if s.len() < 4 + n {
            None
        } else {
            match parse_message(s.subrange(4, 4 + n as int)) {
                Some((m, rest)) => if rest.len() == 0 {
                    Some(m)
                } else {
                    None
                },
                None => None,
            }
        }
    }
}

// ---------------------------------------------------------------------
// Round trips of the parts
// ---------------------------------------------------------------------

proof fn lemma_le_field(x: nat, n: nat, rest: Seq<u8>)
    requires
        x < pow256(n),
    ensures
        parse_le(le_bytes(x, n) + rest, n) == Some((x, rest)),
{
    lemma_le_round_trip(x, n);
    let s = le_bytes(x, n) + rest;
    assert(s.take(n as int) =~= le_bytes(x, n));
    assert(s.skip(n as int) =~= rest);
}

proof fn lemma_bytes_field(b: Seq<u8>, rest: Seq<u8>)
    requires
        bytes_fit(b),
    ensures
        parse_bytes(enc_bytes(b) + rest) == Some((b, rest)),
{
    reveal(parse_bytes);
    lemma_pow256_values();
    lemma_le_field(b.len(), 4, b + rest);
    assert(enc_bytes(b) + rest =~= le_bytes(b.len(), 4) + (b + rest));
    assert((b + rest).take(b.len() as int) =~= b);
    assert((b + rest).skip(b.len() as int) =~= rest);
}

proof fn lemma_string_field(t: Seq<char>, rest: Seq<u8>)
    requires
        bytes_fit(encode_utf8(t)),
    ensures
        parse_string(enc_string(t) + rest) == Some((t, rest)),
{
    reveal(parse_string);
    lemma_bytes_field(encode_utf8(t), rest);
}

proof fn lemma_id_field(b: Seq<u8>, rest: Seq<u8>)
    requires
        id_fits(b),
    ensures
        parse_id(enc_bytes(b) + rest) == Some((b, rest)),
{
    lemma_bytes_field(b, rest);
    reveal(parse_id);
}

proof fn lemma_u16_field(x: u16, rest: Seq<u8>)
    ensures
        parse_u16(enc_u16(x) + rest) == Some((x, rest)),
{
    reveal(parse_u16);
    lemma_pow256_values();
    lemma_le_field(x as nat, 2, rest);
}

proof fn lemma_i64_field(x: i64, rest: Seq<u8>)
    ensures
        parse_i64(enc_i64(x) + rest) == Some((x, rest)),
{
    reveal(parse_i64);
    lemma_pow256_values();
    lemma_le_field((x as u64) as nat, 8, rest);
    assert(((x as u64) as i64) == x) by (bit_vector);
}

proof fn lemma_opt_id_field(o: Option<MessageId>, rest: Seq<u8>)
    ensures
        parse_opt_id(enc_opt_id(o) + rest) == Some((o, rest)),
{
    reveal(parse_opt_id);
    match o {
        None => {
            assert((seq![0u8] + rest).skip(1) =~= rest);
        },
        Some(x) => {
            lemma_i64_field(x, rest);
            assert((seq![1u8] + enc_i64(x) + rest).skip(1) =~= enc_i64(x) + rest);
        },
    }
}

proof fn lemma_opt_bytes_field(o: Option<Seq<u8>>, rest: Seq<u8>)
    requires
        match o {
            Some(b) => bytes_fit(b),
            None => true,
        },
    ensures
        parse_opt_bytes(enc_opt_bytes(o) + rest) == Some((o, rest)),
{
    reveal(parse_opt_bytes);
    match o {
        None => {
            assert((seq![0u8] + rest).skip(1) =~= rest);
        },
        Some(b) => {
            lemma_bytes_field(b, rest);
            assert((seq![1u8] + enc_bytes(b) + rest).skip(1) =~= enc_bytes(b) + rest);
        },
    }
}

proof fn lemma_source_field(s: SourceView, rest: Seq<u8>)
    requires
        source_fits(s),
    ensures
        parse_source(enc_source(s) + rest) == Some((s, rest)),
{
    reveal(parse_source);
    let r2 = enc_bytes(s.1) + rest;
    let r1 = enc_u16(s.0.1) + r2;
    lemma_string_field(s.0.0, r1);
    lemma_u16_field(s.0.1, r2);
    lemma_id_field(s.1, rest);
    assert(enc_source(s) + rest =~= enc_string(s.0.0) + r1);
}

proof fn lemma_source_items_field(l: Seq<SourceView>, rest: Seq<u8>)
    requires
        forall|i: int| 0 <= i < l.len() ==> source_fits(#[trigger] l[i]),
    ensures
        parse_source_items(enc_source_items(l) + rest, l.len()) == Some((l, rest)),
    decreases l.len(),
{
    reveal(parse_source_items);
    if l.len() > 0 {
        let tail = l.drop_first();
        assert(source_fits(l[0]));
        assert forall|i: int| 0 <= i < tail.len() implies source_fits(#[trigger] tail[i]) by {
            assert(tail[i] == l[i + 1]);
        }
        lemma_source_items_field(tail, rest);
        lemma_source_field(l[0], enc_source_items(tail) + rest);
        assert(enc_source_items(l) + rest =~= enc_source(l[0]) + (enc_source_items(tail) + rest));
        assert(seq![l[0]] + tail =~= l);
    } else {
        assert(enc_source_items(l) + rest =~= rest);
    }
}

proof fn lemma_sources_field(l: Seq<SourceView>, rest: Seq<u8>)
    requires
        sources_fit(l),
    ensures
        parse_sources(enc_sources(l) + rest) == Some((l, rest)),
{
    reveal(parse_sources);
    lemma_pow256_values();
    lemma_le_field(l.len(), 4, enc_source_items(l) + rest);
    lemma_source_items_field(l, rest);
    assert(enc_sources(l) + rest =~= le_bytes(l.len(), 4) + (enc_source_items(l) + rest));
}

proof fn lemma_opt_sources_field(o: Option<Seq<SourceView>>, rest: Seq<u8>)
    requires
        match o {
            Some(l) => sources_fit(l),
            None => true,
        },
    ensures
        parse_opt_sources(enc_opt_sources(o) + rest) == Some((o, rest)),
{
    reveal(parse_opt_sources);
    match o {
        None => {
            assert((seq![0u8] + rest).skip(1) =~= rest);
        },
        Some(l) => {
            lemma_sources_field(l, rest);
            assert((seq![1u8] + enc_sources(l) + rest).skip(1) =~= enc_sources(l) + rest);
        },
    }
}

/// Parsing the encoding of a message gives the message back, and what
/// follows it untouched.
pub proof fn lemma_message_round_trip(m: MessageView, rest: Seq<u8>)
    requires
        message_fits(m),
    ensures
        parse_message(enc_message(m) + rest) == Some((m, rest)),
{
    let s = enc_message(m) + rest;
    match m {
        MessageView::Store { key, key_id, value, source } => {
            reveal(parse_store);
            let r3 = enc_source(source) + rest;
            let r2 = enc_bytes(value) + r3;
            let r1 = enc_bytes(key_id) + r2;
            let r0 = enc_bytes(key) + r1;
            assert(s =~= seq![0u8] + r0);
            assert(s.skip(1) =~= r0);
            lemma_bytes_field(key, r1);
            lemma_id_field(key_id, r2);
            lemma_bytes_field(value, r3);
            lemma_source_field(source, rest);
        },
        MessageView::AddNode { source } => {
            reveal(parse_add_node);
            assert(s.skip(1) =~= enc_source(source) + rest);
            lemma_source_field(source, rest);
        },
        MessageView::FindValue { source, message_id, key, key_id } => {
            reveal(parse_find_value);
            let r3 = enc_bytes(key_id) + rest;
            let r2 = enc_bytes(key) + r3;
            let r1 = enc_opt_id(message_id) + r2;
            let r0 = enc_source(source) + r1;
            assert(s =~= seq![2u8] + r0);
            assert(s.skip(1) =~= r0);
            lemma_source_field(source, r1);
            lemma_opt_id_field(message_id, r2);
            lemma_bytes_field(key, r3);
            lemma_id_field(key_id, rest);
        },
        MessageView::FindValueReply { message_id, value, neighbors } => {
            reveal(parse_find_value_reply);
            let r2 = enc_opt_sources(neighbors) + rest;
            let r1 = enc_opt_bytes(value) + r2;
            let r0 = enc_i64(message_id) + r1;
            assert(s =~= seq![3u8] + r0);
            assert(s.skip(1) =~= r0);
            lemma_i64_field(message_id, r1);
            lemma_opt_bytes_field(value, r2);
            lemma_opt_sources_field(neighbors, rest);
        },
        MessageView::FindNode { source, message_id, node_id } => {
            reveal(parse_find_node);
            let r2 = enc_bytes(node_id) + rest;
            let r1 = enc_opt_id(message_id) + r2;
            let r0 = enc_source(source) + r1;
            assert(s =~= seq![4u8] + r0);
            assert(s.skip(1) =~= r0);
            lemma_source_field(source, r1);
            lemma_opt_id_field(message_id, r2);
            lemma_id_field(node_id, rest);
        },
        MessageView::FindNodeReply { message_id, neighbors } => {
            reveal(parse_find_node_reply);
            let r1 = enc_sources(neighbors) + rest;
            let r0 = enc_i64(message_id) + r1;
            assert(s =~= seq![5u8] + r0);
            assert(s.skip(1) =~= r0);
            lemma_i64_field(message_id, r1);
            lemma_sources_field(neighbors, rest);
        },
        MessageView::Ping { message_id, from } => {
            reveal(parse_ping);
            let r1 = enc_source(from) + rest;
            let r0 = enc_opt_id(message_id) + r1;
            assert(s =~= seq![6u8] + r0);
            assert(s.skip(1) =~= r0);
            lemma_opt_id_field(message_id, r1);
            lemma_source_field(from, rest);
        },
        MessageView::PingReply { message_id, to } => {
            reveal(parse_ping_reply);
            let r1 = enc_source(to) + rest;
            let r0 = enc_i64(message_id) + r1;
            assert(s =~= seq![7u8] + r0);
            assert(s.skip(1) =~= r0);
            lemma_i64_field(message_id, r1);
            lemma_source_field(to, rest);
        },
        MessageView::ShutDown => {
            assert(s.skip(1) =~= rest);
        },
    }
}

/// Decoding a frame made of a message gives the message back.
pub proof fn lemma_frame_round_trip(m: MessageView)
    requires
        frame_fits(m),
    ensures
        parse_frame(enc_frame(m)) == Some(m),
{
    let body = enc_message(m);
    lemma_pow256_values();
    lemma_be_round_trip(body.len(), 4);
    let s = enc_frame(m);
    assert(s.take(4) =~= be_bytes(body.len(), 4));
    assert(s.subrange(4, 4 + body.len() as int) =~= body + Seq::<u8>::empty());
    lemma_message_round_trip(m, Seq::empty());
}


// ---------------------------------------------------------------------
// Writing
// ---------------------------------------------------------------------

/// Why a message could not be framed or read back.
#[derive(Debug, PartialEq, Eq, Structural)]
pub enum CodecError {
    /// A field or the whole body is longer than a length field can tell.
    TooLong,
    /// The bytes are not a frame holding one message.
    Malformed,
}

fn put_le(out: &mut Vec<u8>, x: u64, n: usize)
    requires
        n <= 8,
        (x as nat) < pow256(n as nat),
    ensures
        final(out)@ == old(out)@ + le_bytes(x as nat, n as nat),
    decreases n,
{
    if n > 0 {
        proof {
            lemma_div_256_bound(x as nat, n as nat);
        }
        out.push((x % 256) as u8);
        put_le(out, x / 256, n - 1);
        proof {
            assert(old(out)@ + le_bytes(x as nat, n as nat) =~= old(out)@.push((x % 256) as u8)
                + le_bytes((x / 256) as nat, (n - 1) as nat));
        }
    }
}

fn put_be(out: &mut Vec<u8>, x: u64, n: usize)
    requires
        n <= 8,
        (x as nat) < pow256(n as nat),
    ensures
        final(out)@ == old(out)@ + be_bytes(x as nat, n as nat),
    decreases n,
{
    if n > 0 {
        proof {
            lemma_div_256_bound(x as nat, n as nat);
        }
        put_be(out, x / 256, n - 1);
        out.push((x % 256) as u8);
        proof {
            assert(old(out)@ + be_bytes(x as nat, n as nat) =~= old(out)@ + be_bytes(
                (x / 256) as nat,
                (n - 1) as nat,
            ) + seq![(x % 256) as u8]);
        }
    }
}

fn put_raw(out: &mut Vec<u8>, b: &[u8])
    ensures
        final(out)@ == old(out)@ + b@,
{
    let mut i: usize = 0;
    while i < b.len()
        invariant
            i <= b@.len(),
            out@ == old(out)@ + b@.take(i as int),
        decreases b@.len() - i,
    {
        out.push(b[i]);
        i += 1;
        proof {
            assert(b@.take(i as int) =~= b@.take(i - 1).push(b@[i - 1]));
        }
    }
    proof {
        assert(b@.take(b@.len() as int) =~= b@);
    }
}

fn put_bytes(out: &mut Vec<u8>, b: &[u8])
    requires
        bytes_fit(b@),
    ensures
        final(out)@ == old(out)@ + enc_bytes(b@),
{
    proof {
        lemma_pow256_values();
    }
    put_le(out, b.len() as u64, 4);
    put_raw(out, b);
    proof {
        assert(old(out)@ + enc_bytes(b@) =~= old(out)@ + le_bytes(b@.len(), 4) + b@);
    }
}

fn put_source(out: &mut Vec<u8>, source: &Source)
    requires
        source_fits(source@),
    ensures
        final(out)@ == old(out)@ + enc_source(source@),
{
    let endpoint = source.endpoint();
    let host = endpoint.host();
    put_bytes(out, host.as_str().as_bytes());
    proof {
        lemma_pow256_values();
    }
    put_le(out, endpoint.port() as u64, 2);
    put_bytes(out, source.node_id().bytes().as_slice());
    proof {
        assert(old(out)@ + enc_source(source@) =~= old(out)@ + enc_bytes(encode_utf8(host@))
            + enc_u16(endpoint@.1) + enc_bytes(source@.1));
    }
}

proof fn lemma_source_items_push(l: Seq<SourceView>, i: int)
    requires
        0 <= i < l.len(),
    ensures
        enc_source_items(l.take(i + 1)) == enc_source_items(l.take(i)) + enc_source(l[i]),
    decreases i,
{
    if i == 0 {
        assert(l.take(1).drop_first() =~= Seq::<SourceView>::empty());
        assert(enc_source_items(l.take(0)) =~= Seq::<u8>::empty());
        assert(enc_source_items(l.take(1)) == enc_source(l.take(1)[0]) + enc_source_items(
            l.take(1).drop_first(),
        ));
        assert(enc_source_items(l.take(1)) =~= enc_source(l[0]));
    } else {
        let t = l.drop_first();
        lemma_source_items_push(t, i - 1);
        assert(l.take(i + 1).drop_first() =~= t.take(i));
        assert(l.take(i).drop_first() =~= t.take(i - 1));
        assert(enc_source_items(l.take(i + 1)) =~= enc_source(l[0]) + enc_source_items(t.take(i)));
        assert(enc_source_items(l.take(i)) =~= enc_source(l[0]) + enc_source_items(t.take(i - 1)));
    }
}

fn put_sources(out: &mut Vec<u8>, list: &Vec<Source>)
    requires
        sources_fit(view_sources(list@)),
    ensures
        final(out)@ == old(out)@ + enc_sources(view_sources(list@)),
{
    let ghost l = view_sources(list@);
    proof {
        lemma_pow256_values();
    }
    put_le(out, list.len() as u64, 4);
    let ghost start = out@;
    let mut i: usize = 0;
    proof {
        assert(enc_source_items(l.take(0)) =~= Seq::<u8>::empty());
    }
    while i < list.len()
        invariant
            i <= list@.len(),
            l == view_sources(list@),
            sources_fit(l),
            start == old(out)@ + enc_len(l.len()),
            out@ == start + enc_source_items(l.take(i as int)),
        decreases list@.len() - i,
    {
        proof {
            assert(l[i as int] == list@[i as int]@);
            assert(source_fits(l[i as int]));
            lemma_source_items_push(l, i as int);
        }
        put_source(out, &list[i]);
        i += 1;
        proof {
            assert(out@ =~= start + enc_source_items(l.take(i as int)));
        }
    }
    proof {
        assert(l.take(l.len() as int) =~= l);
        assert(old(out)@ + enc_sources(l) =~= start + enc_source_items(l));
    }
}

fn put_opt_id(out: &mut Vec<u8>, o: Option<MessageId>)
    ensures
        final(out)@ == old(out)@ + enc_opt_id(o),
{
    proof {
        lemma_pow256_values();
    }
    match o {
        None => {
            out.push(0u8);
            proof {
                assert(out@ =~= old(out)@ + seq![0u8]);
            }
        },
        Some(x) => {
            out.push(1u8);
            put_le(out, x as u64, 8);
            proof {
                assert(out@ =~= old(out)@ + (seq![1u8] + enc_i64(x)));
            }
        },
    }
}

fn put_i64(out: &mut Vec<u8>, x: i64)
    ensures
        final(out)@ == old(out)@ + enc_i64(x),
{
    proof {
        lemma_pow256_values();
    }
    put_le(out, x as u64, 8);
}

fn source_fits_exec(source: &Source) -> (r: bool)
    ensures
        r == source_fits(source@),
{
    (source.endpoint().host().as_str().as_bytes().len() as u64) <= MAX_FIELD_LENGTH
        && source.node_id().len() <= MAX_ID_LENGTH_IN_BYTES
}

fn sources_fit_exec(list: &Vec<Source>) -> (r: bool)
    ensures
        r == sources_fit(view_sources(list@)),
{
    if (list.len() as u64) > MAX_FIELD_LENGTH {
        return false;
    }
    let mut i: usize = 0;
    while i < list.len()
        invariant
            i <= list@.len(),
            forall|k: int| 0 <= k < i ==> source_fits(#[trigger] view_sources(list@)[k]),
        decreases list@.len() - i,
    {
        if !source_fits_exec(&list[i]) {
            proof {
                assert(view_sources(list@)[i as int] == list@[i as int]@);
            }
            return false;
        }
        i += 1;
    }
    true
}

impl Message {
    /// Whether every length field of the message fits in four bytes.
    pub fn fits(&self) -> (r: bool)
        ensures
            r == message_fits(self@),
    {
        match self {
            Message::Store { key, key_id, value, source } => {
                (key.len() as u64) <= MAX_FIELD_LENGTH && key_id.len() <= MAX_ID_LENGTH_IN_BYTES
                    && (value.len() as u64) <= MAX_FIELD_LENGTH && source_fits_exec(source)
            },
            Message::AddNode { source } => source_fits_exec(source),
            Message::FindValue { source, key, key_id, .. } => {
                source_fits_exec(source) && (key.len() as u64) <= MAX_FIELD_LENGTH && key_id.len()
                    <= MAX_ID_LENGTH_IN_BYTES
            },
            Message::FindValueReply { value, neighbors, .. } => {
                let value_fits = match value {
                    Some(v) => (v.len() as u64) <= MAX_FIELD_LENGTH,
                    None => true,
                };
                let neighbors_fit = match neighbors {
                    Some(l) => sources_fit_exec(l),
                    None => true,
                };
                value_fits && neighbors_fit
            },
            Message::FindNode { source, node_id, .. } => {
                source_fits_exec(source) && node_id.len() <= MAX_ID_LENGTH_IN_BYTES
            },
            Message::FindNodeReply { neighbors, .. } => sources_fit_exec(neighbors),
            Message::Ping { from, .. } => source_fits_exec(from),
            Message::PingReply { to, .. } => source_fits_exec(to),
            Message::ShutDown => true,
        }
    }

    #[verifier::rlimit(40)]
    fn put_body(&self, out: &mut Vec<u8>)
        requires
            message_fits(self@),
        ensures
            final(out)@ == old(out)@ + enc_message(self@),
    {
        match self {
            Message::Store { key, key_id, value, source } => {
                out.push(0u8);
                put_bytes(out, key.as_slice());
                put_bytes(out, key_id.bytes().as_slice());
                put_bytes(out, value.as_slice());
                put_source(out, source);
                proof {
                    assert(out@ =~= old(out)@ + enc_message(self@));
                }
            },
            Message::AddNode { source } => {
                out.push(1u8);
                put_source(out, source);
                proof {
                    assert(out@ =~= old(out)@ + enc_message(self@));
                }
            },
            Message::FindValue { source, message_id, key, key_id } => {
                out.push(2u8);
                put_source(out, source);
                put_opt_id(out, *message_id);
                put_bytes(out, key.as_slice());
                put_bytes(out, key_id.bytes().as_slice());
                proof {
                    assert(out@ =~= old(out)@ + enc_message(self@));
                }
            },
            Message::FindValueReply { message_id, value, neighbors } => {
                out.push(3u8);
                put_i64(out, *message_id);
                let ghost mid = out@;
                match value {
                    Some(v) => {
                        out.push(1u8);
                        put_bytes(out, v.as_slice());
                        proof {
                            assert(out@ =~= mid + enc_opt_bytes(view_opt_bytes(*value)));
                        }
                    },
                    None => {
                        out.push(0u8);
                        proof {
                            assert(out@ =~= mid + enc_opt_bytes(view_opt_bytes(*value)));
                        }
                    },
                }
                let ghost mid2 = out@;
                match neighbors {
                    Some(l) => {
                        out.push(1u8);
                        put_sources(out, l);
                        proof {
                            assert(out@ =~= mid2 + enc_opt_sources(view_opt_sources(*neighbors)));
                        }
                    },
                    None => {
                        out.push(0u8);
                        proof {
                            assert(out@ =~= mid2 + enc_opt_sources(view_opt_sources(*neighbors)));
                        }
                    },
                }
                proof {
                    assert(out@ =~= old(out)@ + enc_message(self@));
                }
            },
            Message::FindNode { source, message_id, node_id } => {
                out.push(4u8);
                put_source(out, source);
                put_opt_id(out, *message_id);
                put_bytes(out, node_id.bytes().as_slice());
                proof {
                    assert(out@ =~= old(out)@ + enc_message(self@));
                }
            },
            Message::FindNodeReply { message_id, neighbors } => {
                out.push(5u8);
                put_i64(out, *message_id);
                put_sources(out, neighbors);
                proof {
                    assert(out@ =~= old(out)@ + enc_message(self@));
                }
            },
            Message::Ping { message_id, from } => {
                out.push(6u8);
                put_opt_id(out, *message_id);
                put_source(out, from);
                proof {
                    assert(out@ =~= old(out)@ + enc_message(self@));
                }
            },
            Message::PingReply { message_id, to } => {
                out.push(7u8);
                put_i64(out, *message_id);
                put_source(out, to);
                proof {
                    assert(out@ =~= old(out)@ + enc_message(self@));
                }
            },
            Message::ShutDown => {
                out.push(8u8);
                proof {
                    assert(out@ =~= old(out)@ + enc_message(self@));
                }
            },
        }
    }

    /// The frame of the message: four bytes giving the body's length, most
    /// significant first, then the body. Fails with `TooLong` when a field
    /// or the body is too long for its length field.
    pub fn serialize(&self) -> (r: Result<Vec<u8>, CodecError>)
        ensures
            match r {
                Ok(bytes) => frame_fits(self@) && bytes@ == enc_frame(self@),
                Err(e) => !frame_fits(self@) && e == CodecError::TooLong,
            },
    {
        if !self.fits() {
            return Err(CodecError::TooLong);
        }
        let mut body: Vec<u8> = Vec::new();
        self.put_body(&mut body);
        proof {
            assert(body@ =~= enc_message(self@));
        }
        if (body.len() as u64) > MAX_FIELD_LENGTH {
            return Err(CodecError::TooLong);
        }
        let mut serialized: Vec<u8> = Vec::new();
        proof {
            lemma_pow256_values();
        }
        put_be(&mut serialized, body.len() as u64, 4);
        put_raw(&mut serialized, body.as_slice());
        proof {
            assert(serialized@ =~= enc_frame(self@));
        }
        Ok(serialized)
    }
}


// ---------------------------------------------------------------------
// Reading: each reader starts at `pos` and returns what it read and the
// position after it
// ---------------------------------------------------------------------

/// The bytes of `b` from `pos` on.
pub open spec fn rest(b: Seq<u8>, pos: int) -> Seq<u8> {
    b.subrange(pos, b.len() as int)
}

/// Relies on std's `String::from_utf8`: it succeeds exactly when the bytes
/// are valid UTF-8, and the text then holds the characters they encode.
#[verifier::external_body]
fn string_from_utf8(bytes: Vec<u8>) -> (r: Option<String>)
    ensures
        match r {
            Some(s) => valid_utf8(bytes@) && s@ == decode_utf8(bytes@),
            None => !valid_utf8(bytes@),
        },
{
    String::from_utf8(bytes).ok()
}

fn get_le(b: &[u8], pos: usize, n: usize) -> (r: u64)
    requires
        n <= 8,
        pos + n <= b@.len(),
    ensures
        r as nat == le_value(b@.subrange(pos as int, pos + n)),
    decreases n,
{
    if n == 0 {
        0
    } else {
        let len = b.len();
        let high = get_le(b, pos + 1, n - 1);
        let ghost s = b@.subrange(pos as int, pos + n);
        proof {
            assert(s.drop_first() =~= b@.subrange(pos + 1, pos + n));
            lemma_le_value_bound(s.drop_first());
            lemma_pow256_monotonic((n - 1) as nat, 7);
            reveal_with_fuel(pow256, 8);
        }
        b[pos] as u64 + 256 * high
    }
}

fn get_be(b: &[u8], pos: usize, n: usize) -> (r: u64)
    requires
        n <= 8,
        pos + n <= b@.len(),
    ensures
        r as nat == be_value(b@.subrange(pos as int, pos + n)),
    decreases n,
{
    if n == 0 {
        0
    } else {
        let len = b.len();
        let high = get_be(b, pos, n - 1);
        let ghost s = b@.subrange(pos as int, pos + n);
        proof {
            assert(s =~= b@.subrange(pos as int, pos + n - 1).push(b@[pos + n - 1]));
            lemma_be_value_push(b@.subrange(pos as int, pos + n - 1), b@[pos + n - 1]);
            crate::id::lemma_be_value_bound(b@.subrange(pos as int, pos + n - 1));
            lemma_pow256_monotonic((n - 1) as nat, 7);
            reveal_with_fuel(pow256, 8);
        }
        256 * high + b[pos + n - 1] as u64
    }
}

fn read_u8(b: &[u8], pos: usize) -> (r: Option<(u8, usize)>)
    requires
        pos <= b@.len(),
    ensures
        match r {
            Some((v, next)) => pos <= next <= b@.len() && parse_u8(rest(b@, pos as int)) == Some(
                (v, rest(b@, next as int)),
            ),
            None => parse_u8(rest(b@, pos as int)).is_none(),
        },
{
    if pos < b.len() {
        proof {
            assert(rest(b@, pos as int).skip(1) =~= rest(b@, pos + 1));
        }
        Some((b[pos], pos + 1))
    } else {
        None
    }
}

fn read_le(b: &[u8], pos: usize, n: usize) -> (r: Option<(u64, usize)>)
    requires
        pos <= b@.len(),
        n <= 8,
    ensures
        match r {
            Some((v, next)) => pos <= next <= b@.len() && parse_le(rest(b@, pos as int), n as nat)
                == Some((v as nat, rest(b@, next as int))),
            None => parse_le(rest(b@, pos as int), n as nat).is_none(),
        },
{
    if b.len() - pos >= n {
        let v = get_le(b, pos, n);
        proof {
            assert(rest(b@, pos as int).take(n as int) =~= b@.subrange(pos as int, pos + n));
            assert(rest(b@, pos as int).skip(n as int) =~= rest(b@, pos + n));
        }
        Some((v, pos + n))
    } else {
        None
    }
}

fn read_raw(b: &[u8], pos: usize, n: usize) -> (r: Vec<u8>)
    requires
        pos + n <= b@.len(),
    ensures
        r@ == b@.subrange(pos as int, pos + n),
{
    let mut v: Vec<u8> = Vec::with_capacity(n);
    let mut i: usize = 0;
    let len = b.len();
    while i < n
        invariant
            i <= n,
            len == b@.len(),
            pos + n <= b@.len(),
            v@ =~= b@.subrange(pos as int, pos + i),
        decreases n - i,
    {
        v.push(b[pos + i]);
        i += 1;
    }
    v
}

fn read_bytes(b: &[u8], pos: usize) -> (r: Option<(Vec<u8>, usize)>)
    requires
        pos <= b@.len(),
    ensures
        match r {
            Some((v, next)) => pos <= next <= b@.len() && parse_bytes(rest(b@, pos as int)) == Some(
                (v@, rest(b@, next as int)),
            ),
            None => parse_bytes(rest(b@, pos as int)).is_none(),
        },
{
    reveal(parse_bytes);
    match read_le(b, pos, 4) {
        Some((n, p1)) => {
            if ((b.len() - p1) as u64) < n {
                return None;
            }
            let n = n as usize;
            let v = read_raw(b, p1, n);
            proof {
                assert(rest(b@, p1 as int).take(n as int) =~= v@);
                assert(rest(b@, p1 as int).skip(n as int) =~= rest(b@, p1 + n));
            }
            Some((v, p1 + n))
        },
        None => None,
    }
}

fn read_string(b: &[u8], pos: usize) -> (r: Option<(String, usize)>)
    requires
        pos <= b@.len(),
    ensures
        match r {
            Some((v, next)) => pos <= next <= b@.len() && parse_string(rest(b@, pos as int))
                == Some((v@, rest(b@, next as int))),
            None => parse_string(rest(b@, pos as int)).is_none(),
        },
{
    reveal(parse_string);
    match read_bytes(b, pos) {
        Some((v, p1)) => match string_from_utf8(v) {
            Some(s) => Some((s, p1)),
            None => None,
        },
        None => None,
    }
}

fn read_id(b: &[u8], pos: usize) -> (r: Option<(Id, usize)>)
    requires
        pos <= b@.len(),
    ensures
        match r {
            Some((v, next)) => pos <= next <= b@.len() && parse_id(rest(b@, pos as int)) == Some(
                (v@, rest(b@, next as int)),
            ),
            None => parse_id(rest(b@, pos as int)).is_none(),
        },
{
    reveal(parse_id);
    match read_bytes(b, pos) {
        Some((v, p1)) => {
            if v.len() <= MAX_ID_LENGTH_IN_BYTES {
                Some((Id::new(v), p1))
            } else {
                None
            }
        },
        None => None,
    }
}

fn read_u16(b: &[u8], pos: usize) -> (r: Option<(u16, usize)>)
    requires
        pos <= b@.len(),
    ensures
        match r {
            Some((v, next)) => pos <= next <= b@.len() && parse_u16(rest(b@, pos as int)) == Some(
                (v, rest(b@, next as int)),
            ),
            None => parse_u16(rest(b@, pos as int)).is_none(),
        },
{
    reveal(parse_u16);
    match read_le(b, pos, 2) {
        Some((v, p1)) => {
            proof {
                lemma_le_value_bound(rest(b@, pos as int).take(2));
                lemma_pow256_values();
            }
            Some((v as u16, p1))
        },
        None => None,
    }
}

fn read_i64(b: &[u8], pos: usize) -> (r: Option<(i64, usize)>)
    requires
        pos <= b@.len(),
    ensures
        match r {
            Some((v, next)) => pos <= next <= b@.len() && parse_i64(rest(b@, pos as int)) == Some(
                (v, rest(b@, next as int)),
            ),
            None => parse_i64(rest(b@, pos as int)).is_none(),
        },
{
    reveal(parse_i64);
    match read_le(b, pos, 8) {
        Some((v, p1)) => Some((v as i64, p1)),
        None => None,
    }
}

fn read_opt_id(b: &[u8], pos: usize) -> (r: Option<(Option<MessageId>, usize)>)
    requires
        pos <= b@.len(),
    ensures
        match r {
            Some((v, next)) => pos <= next <= b@.len() && parse_opt_id(rest(b@, pos as int))
                == Some((v, rest(b@, next as int))),
            None => parse_opt_id(rest(b@, pos as int)).is_none(),
        },
{
    reveal(parse_opt_id);
    match read_u8(b, pos) {
        Some((t, p1)) => {
            if t == 0 {
                Some((None, p1))
            } else if t == 1 {
                match read_i64(b, p1) {
                    Some((x, p2)) => Some((Some(x), p2)),
                    None => None,
                }
            } else {
                None
            }
        },
        None => None,
    }
}

fn read_opt_bytes(b: &[u8], pos: usize) -> (r: Option<(Option<Vec<u8>>, usize)>)
    requires
        pos <= b@.len(),
    ensures
        match r {
            Some((v, next)) => pos <= next <= b@.len() && parse_opt_bytes(rest(b@, pos as int))
                == Some((view_opt_bytes(v), rest(b@, next as int))),
            None => parse_opt_bytes(rest(b@, pos as int)).is_none(),
        },
{
    reveal(parse_opt_bytes);
    match read_u8(b, pos) {
        Some((t, p1)) => {
            if t == 0 {
                Some((None, p1))
            } else if t == 1 {
                match read_bytes(b, p1) {
                    Some((x, p2)) => Some((Some(x), p2)),
                    None => None,
                }
            } else {
                None
            }
        },
        None => None,
    }
}

fn read_source(b: &[u8], pos: usize) -> (r: Option<(Source, usize)>)
    requires
        pos <= b@.len(),
    ensures
        match r {
            Some((v, next)) => pos <= next <= b@.len() && parse_source(rest(b@, pos as int))
                == Some((v@, rest(b@, next as int))),
            None => parse_source(rest(b@, pos as int)).is_none(),
        },
{
    reveal(parse_source);
    match read_string(b, pos) {
        Some((host, p1)) => match read_u16(b, p1) {
            Some((port, p2)) => match read_id(b, p2) {
                Some((id, p3)) => Some((Source::from_parts(Endpoint::new(host, port), id), p3)),
                None => None,
            },
            None => None,
        },
        None => None,
    }
}

fn read_sources(b: &[u8], pos: usize) -> (r: Option<(Vec<Source>, usize)>)
    requires
        pos <= b@.len(),
    ensures
        match r {
            Some((v, next)) => pos <= next <= b@.len() && parse_sources(rest(b@, pos as int))
                == Some((view_sources(v@), rest(b@, next as int))),
            None => parse_sources(rest(b@, pos as int)).is_none(),
        },
{
    reveal(parse_sources);
    let (count, p1) = match read_le(b, pos, 4) {
        Some(x) => x,
        None => {
            return None;
        },
    };
    let ghost whole = parse_source_items(rest(b@, p1 as int), count as nat);
    let mut list: Vec<Source> = Vec::new();
    let mut at = p1;
    let mut i: u64 = 0;
    while i < count
        invariant
            i <= count,
            pos <= p1 <= at <= b@.len(),
            whole == parse_source_items(rest(b@, p1 as int), count as nat),
            parse_le(rest(b@, pos as int), 4) == Some((count as nat, rest(b@, p1 as int))),
            whole == match parse_source_items(rest(b@, at as int), (count - i) as nat) {
                Some((xs, r)) => Some((view_sources(list@) + xs, r)),
                None => None,
            },
        decreases count - i,
    {
        proof {
            reveal(parse_source_items);
        }
        match read_source(b, at) {
            Some((x, next)) => {
                proof {
                    let tail = parse_source_items(rest(b@, next as int), (count - i - 1) as nat);
                    match tail {
                        Some((xs, r)) => {
                            assert(view_sources(list@.push(x)) + xs =~= view_sources(list@) + (
                            seq![x@] + xs));
                        },
                        None => {},
                    }
                }
                list.push(x);
                at = next;
            },
            None => {
                proof {
                    assert(parse_source_items(rest(b@, at as int), (count - i) as nat).is_none());
                    reveal(parse_sources);
                    assert(whole.is_none());
                }
                return None;
            },
        }
        i += 1;
    }
    proof {
        reveal(parse_source_items);
        assert(view_sources(list@) + Seq::<SourceView>::empty() =~= view_sources(list@));
    }
    Some((list, at))
}

fn read_opt_sources(b: &[u8], pos: usize) -> (r: Option<(Option<Vec<Source>>, usize)>)
    requires
        pos <= b@.len(),
    ensures
        match r {
            Some((v, next)) => pos <= next <= b@.len() && parse_opt_sources(rest(b@, pos as int))
                == Some((view_opt_sources(v), rest(b@, next as int))),
            None => parse_opt_sources(rest(b@, pos as int)).is_none(),
        },
{
    reveal(parse_opt_sources);
    match read_u8(b, pos) {
        Some((t, p1)) => {
            if t == 0 {
                Some((None, p1))
            } else if t == 1 {
                match read_sources(b, p1) {
                    Some((x, p2)) => Some((Some(x), p2)),
                    None => None,
                }
            } else {
                None
            }
        },
        None => None,
    }
}

fn read_store(b: &[u8], pos: usize) -> (r: Option<(Message, usize)>)
    requires
        pos <= b@.len(),
    ensures
        match r {
            Some((v, next)) => pos <= next <= b@.len() && parse_store(rest(b@, pos as int)) == Some(
                (v@, rest(b@, next as int)),
            ),
            None => parse_store(rest(b@, pos as int)).is_none(),
        },
{
    reveal(parse_store);
    let (key, p1) = match read_bytes(b, pos) {
        Some(x) => x,
        None => {
            return None;
        },
    };
    let (key_id, p2) = match read_id(b, p1) {
        Some(x) => x,
        None => {
            return None;
        },
    };
    let (value, p3) = match read_bytes(b, p2) {
        Some(x) => x,
        None => {
            return None;
        },
    };
    let (source, p4) = match read_source(b, p3) {
        Some(x) => x,
        None => {
            return None;
        },
    };
    Some((Message::Store { key, key_id, value, source }, p4))
}

fn read_add_node(b: &[u8], pos: usize) -> (r: Option<(Message, usize)>)
    requires
        pos <= b@.len(),
    ensures
        match r {
            Some((v, next)) => pos <= next <= b@.len() && parse_add_node(rest(b@, pos as int)) == Some(
                (v@, rest(b@, next as int)),
            ),
            None => parse_add_node(rest(b@, pos as int)).is_none(),
        },
{
    reveal(parse_add_node);
    let (source, p1) = match read_source(b, pos) {
        Some(x) => x,
        None => {
            return None;
        },
    };
    Some((Message::AddNode { source }, p1))
}

fn read_find_value(b: &[u8], pos: usize) -> (r: Option<(Message, usize)>)
    requires
        pos <= b@.len(),
    ensures
        match r {
            Some((v, next)) => pos <= next <= b@.len() && parse_find_value(rest(b@, pos as int)) == Some(
                (v@, rest(b@, next as int)),
            ),
            None => parse_find_value(rest(b@, pos as int)).is_none(),
        },
{
    reveal(parse_find_value);
    let (source, p1) = match read_source(b, pos) {
        Some(x) => x,
        None => {
            return None;
        },
    };
    let (message_id, p2) = match read_opt_id(b, p1) {
        Some(x) => x,
        None => {
            return None;
        },
    };
    let (key, p3) = match read_bytes(b, p2) {
        Some(x) => x,
        None => {
            return None;
        },
    };
    let (key_id, p4) = match read_id(b, p3) {
        Some(x) => x,
        None => {
            return None;
        },
    };
    Some((Message::FindValue { source, message_id, key, key_id }, p4))
}

fn read_find_value_reply(b: &[u8], pos: usize) -> (r: Option<(Message, usize)>)
    requires
        pos <= b@.len(),
    ensures
        match r {
            Some((v, next)) => pos <= next <= b@.len() && parse_find_value_reply(rest(b@, pos as int)) == Some(
                (v@, rest(b@, next as int)),
            ),
            None => parse_find_value_reply(rest(b@, pos as int)).is_none(),
        },
{
    reveal(parse_find_value_reply);
    let (message_id, p1) = match read_i64(b, pos) {
        Some(x) => x,
        None => {
            return None;
        },
    };
    let (value, p2) = match read_opt_bytes(b, p1) {
        Some(x) => x,
        None => {
            return None;
        },
    };
    let (neighbors, p3) = match read_opt_sources(b, p2) {
        Some(x) => x,
        None => {
            return None;
        },
    };
    Some((Message::FindValueReply { message_id, value, neighbors }, p3))
}

fn read_find_node(b: &[u8], pos: usize) -> (r: Option<(Message, usize)>)
    requires
        pos <= b@.len(),
    ensures
        match r {
            Some((v, next)) => pos <= next <= b@.len() && parse_find_node(rest(b@, pos as int)) == Some(
                (v@, rest(b@, next as int)),
            ),
            None => parse_find_node(rest(b@, pos as int)).is_none(),
        },
{
    reveal(parse_find_node);
    let (source, p1) = match read_source(b, pos) {
        Some(x) => x,
        None => {
            return None;
        },
    };
    let (message_id, p2) = match read_opt_id(b, p1) {
        Some(x) => x,
        None => {
            return None;
        },
    };
    let (node_id, p3) = match read_id(b, p2) {
        Some(x) => x,
        None => {
            return None;
        },
    };
    Some((Message::FindNode { source, message_id, node_id }, p3))
}

fn read_find_node_reply(b: &[u8], pos: usize) -> (r: Option<(Message, usize)>)
    requires
        pos <= b@.len(),
    ensures
        match r {
            Some((v, next)) => pos <= next <= b@.len() && parse_find_node_reply(rest(b@, pos as int)) == Some(
                (v@, rest(b@, next as int)),
            ),
            None => parse_find_node_reply(rest(b@, pos as int)).is_none(),
        },
{
    reveal(parse_find_node_reply);
    let (message_id, p1) = match read_i64(b, pos) {
        Some(x) => x,
        None => {
            return None;
        },
    };
    let (neighbors, p2) = match read_sources(b, p1) {
        Some(x) => x,
        None => {
            return None;
        },
    };
    Some((Message::FindNodeReply { message_id, neighbors }, p2))
}

fn read_ping(b: &[u8], pos: usize) -> (r: Option<(Message, usize)>)
    requires
        pos <= b@.len(),
    ensures
        match r {
            Some((v, next)) => pos <= next <= b@.len() && parse_ping(rest(b@, pos as int)) == Some(
                (v@, rest(b@, next as int)),
            ),
            None => parse_ping(rest(b@, pos as int)).is_none(),
        },
{
    reveal(parse_ping);
    let (message_id, p1) = match read_opt_id(b, pos) {
        Some(x) => x,
        None => {
            return None;
        },
    };
    let (from, p2) = match read_source(b, p1) {
        Some(x) => x,
        None => {
            return None;
        },
    };
    Some((Message::Ping { message_id, from }, p2))
}

fn read_ping_reply(b: &[u8], pos: usize) -> (r: Option<(Message, usize)>)
    requires
        pos <= b@.len(),
    ensures
        match r {
            Some((v, next)) => pos <= next <= b@.len() && parse_ping_reply(rest(b@, pos as int)) == Some(
                (v@, rest(b@, next as int)),
            ),
            None => parse_ping_reply(rest(b@, pos as int)).is_none(),
        },
{
    reveal(parse_ping_reply);
    let (message_id, p1) = match read_i64(b, pos) {
        Some(x) => x,
        None => {
            return None;
        },
    };
    let (to, p2) = match read_source(b, p1) {
        Some(x) => x,
        None => {
            return None;
        },
    };
    Some((Message::PingReply { message_id, to }, p2))
}

fn read_message(b: &[u8], pos: usize) -> (r: Option<(Message, usize)>)
    requires
        pos <= b@.len(),
    ensures
        match r {
            Some((v, next)) => pos <= next <= b@.len() && parse_message(rest(b@, pos as int)) == Some(
                (v@, rest(b@, next as int)),
            ),
            None => parse_message(rest(b@, pos as int)).is_none(),
        },
{
    let (tag, p1) = match read_u8(b, pos) {
        Some(x) => x,
        None => {
            return None;
        },
    };
    if tag == 0 {
        read_store(b, p1)
    } else if tag == 1 {
        read_add_node(b, p1)
    } else if tag == 2 {
        read_find_value(b, p1)
    } else if tag == 3 {
        read_find_value_reply(b, p1)
    } else if tag == 4 {
        read_find_node(b, p1)
    } else if tag == 5 {
        read_find_node_reply(b, p1)
    } else if tag == 6 {
        read_ping(b, p1)
    } else if tag == 7 {
        read_ping_reply(b, p1)
    } else if tag == 8 {
        Some((Message::ShutDown, p1))
    } else {
        None
    }
}

impl Message {
    /// Reads the message that a frame holds: four bytes give the body's
    /// length, most significant first, and the body must be exactly one
    /// message. Fails with `Malformed` otherwise.
    pub fn deserialize_from(bytes: &[u8]) -> (r: Result<Message, CodecError>)
        ensures
            match r {
                Ok(m) => parse_frame(bytes@) == Some(m@),
                Err(e) => parse_frame(bytes@).is_none() && e == CodecError::Malformed,
            },
    {
        let len = bytes.len();
        if len < 4 {
            return Err(CodecError::Malformed);
        }
        let n = get_be(bytes, 0, 4);
        proof {
            assert(bytes@.subrange(0, 4) =~= bytes@.take(4));
        }
        if ((len - 4) as u64) < n {
            return Err(CodecError::Malformed);
        }
        let body = read_raw(bytes, 4, n as usize);
        let body_slice = body.as_slice();
        match read_message(body_slice, 0) {
            Some((m, next)) => {
                proof {
                    assert(rest(body@, 0) =~= body@);
                }
                if next == body.len() {
                    proof {
                        assert(rest(body@, next as int).len() == 0);
                    }
                    Ok(m)
                } else {
                    Err(CodecError::Malformed)
                }
            },
            None => {
                proof {
                    assert(rest(body@, 0) =~= body@);
                }
                Err(CodecError::Malformed)
            },
        }
    }
}

} // verus!
