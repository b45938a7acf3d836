//! Wire codec for [`Message`] envelopes.
//!
//! A frame is a 4-byte big-endian unsigned length followed by that many
//! payload bytes.  The payload is a deterministic binary form: one tag byte
//! per payload variant, fixed-width big-endian integers, and length-prefixed
//! UTF-8 for strings and raw bytes.  `encode` and `decode` are proved to be
//! inverses ([`lemma_decode_encode`]).

use vstd::prelude::*;
use vstd::utf8::{decode_utf8, encode_utf8, valid_utf8};
use crate::model::{entries_view, history_entry_view, opt_user_view, Message, MessageType, MessageView, PayloadView, ProtocolError, UserInfo, UserInfoView};

verus! {

/// Every length written on the wire must fit the 4-byte prefix.
pub open spec fn len_limit() -> int {
    0x1_0000_0000
}

// ---------------------------------------------------------------------------
// Specification-level encoders
// ---------------------------------------------------------------------------

/// Big-endian bytes of a 32-bit unsigned integer.
pub open spec fn enc_u32(n: u32) -> Seq<u8> {
    seq![
        ((n >> 24) & 0xff) as u8,
        ((n >> 16) & 0xff) as u8,
        ((n >> 8) & 0xff) as u8,
        (n & 0xff) as u8,
    ]
}

/// Big-endian bytes of a 64-bit unsigned integer.
pub open spec fn enc_u64(n: u64) -> Seq<u8> {
    seq![
        ((n >> 56) & 0xff) as u8,
        ((n >> 48) & 0xff) as u8,
        ((n >> 40) & 0xff) as u8,
        ((n >> 32) & 0xff) as u8,
        ((n >> 24) & 0xff) as u8,
        ((n >> 16) & 0xff) as u8,
        ((n >> 8) & 0xff) as u8,
        (n & 0xff) as u8,
    ]
}

/// A signed 32-bit integer rides as an unsigned one, shifted by 2^31.
pub open spec fn enc_i32(n: i32) -> Seq<u8> {
    enc_u32((n + 0x8000_0000) as u32)
}

/// Raw bytes, length-prefixed.
pub open spec fn enc_bytes(b: Seq<u8>) -> Seq<u8> {
    enc_u32(b.len() as u32) + b
}

/// A string travels as its UTF-8 bytes, length-prefixed.
pub open spec fn enc_str(s: Seq<char>) -> Seq<u8> {
    enc_bytes(encode_utf8(s))
}

/// A colour triple is three raw bytes.
pub open spec fn enc_color(c: (u8, u8, u8)) -> Seq<u8> {
    seq![c.0, c.1, c.2]
}

/// A user record: id, name, colour.
pub open spec fn enc_user(u: UserInfoView) -> Seq<u8> {
    enc_i32(u.id) + enc_str(u.username) + enc_color(u.color)
}

/// An optional user: presence byte, then the record if present.
pub open spec fn enc_opt_user(u: Option<UserInfoView>) -> Seq<u8> {
    match u {
        None => seq![0u8],
        Some(x) => seq![1u8] + enc_user(x),
    }
}

/// The history entries, one after another.
pub open spec fn enc_entries(es: Seq<(Seq<char>, UserInfoView)>) -> Seq<u8>
    decreases es.len(),
{
    if es.len() == 0 {
        Seq::empty()
    } else {
        enc_str(es[0].0) + enc_user(es[0].1) + enc_entries(es.drop_first())
    }
}

/// A history list: entry count, then the entries.
pub open spec fn enc_history(es: Seq<(Seq<char>, UserInfoView)>) -> Seq<u8> {
    enc_u32(es.len() as u32) + enc_entries(es)
}

/// One payload: a tag byte, then the variant's fields.
pub open spec fn enc_payload(p: PayloadView) -> Seq<u8> {
    match p {
        PayloadView::Text(s) => seq![0u8] + enc_str(s),
        PayloadView::Image(b) => seq![1u8] + enc_bytes(b),
        PayloadView::File(n, b) => seq![2u8] + enc_str(n) + enc_bytes(b),
        PayloadView::UserConnect => seq![3u8],
        PayloadView::UserDisconnect => seq![4u8],
        PayloadView::UserNameChange(s) => seq![5u8] + enc_str(s),
        PayloadView::UserColorChange(r, g, b) => seq![6u8, r, g, b],
        PayloadView::RecoverableError(s) => seq![7u8] + enc_str(s),
        PayloadView::UnrecoverableError(s) => seq![8u8] + enc_str(s),
        PayloadView::LoginRequest(u, p) => seq![9u8] + enc_str(u) + enc_str(p),
        PayloadView::LoginResponse(u) => seq![10u8] + enc_opt_user(u),
        PayloadView::RegisterRequest(u, p, r, g, b) => seq![11u8] + enc_str(u) + enc_str(p) + seq![r, g, b],
        PayloadView::RegisterResponse(u) => seq![12u8] + enc_opt_user(u),
        PayloadView::OldMessagesRequest => seq![13u8],
        PayloadView::OldMessagesResponse(es) => seq![14u8] + enc_history(es),
    }
}

/// The payload bytes of one envelope: payload, author, timestamp.
pub open spec fn enc_message(m: MessageView) -> Seq<u8> {
    enc_payload(m.message) + enc_user(m.user_info) + enc_u64(m.datetime)
}

/// A whole frame: length prefix, then the envelope bytes.
pub open spec fn spec_frame(m: MessageView) -> Seq<u8> {
    enc_u32(enc_message(m).len() as u32) + enc_message(m)
}

// ---------------------------------------------------------------------------
// Size side conditions: every length prefix must hold its value
// ---------------------------------------------------------------------------

/// The string's UTF-8 form fits its length prefix.
pub open spec fn str_fits(s: Seq<char>) -> bool {
    encode_utf8(s).len() < len_limit()
}

/// The byte blob fits its length prefix.
pub open spec fn bytes_fits(b: Seq<u8>) -> bool {
    b.len() < len_limit()
}

/// The user record's variable part fits.
pub open spec fn user_fits(u: UserInfoView) -> bool {
    str_fits(u.username)
}

/// The optional user record fits.
pub open spec fn opt_user_fits(u: Option<UserInfoView>) -> bool {
    match u {
        None => true,
        Some(x) => user_fits(x),
    }
}

/// Every history entry fits and the count fits its prefix.
pub open spec fn entries_fit(es: Seq<(Seq<char>, UserInfoView)>) -> bool {
    &&& es.len() < len_limit()
    &&& forall|i: int| 0 <= i < es.len() ==> str_fits(#[trigger] es[i].0) && user_fits(es[i].1)
}

/// The payload's variable-length parts all fit their prefixes.
pub open spec fn payload_fits(p: PayloadView) -> bool {
    match p {
        PayloadView::Text(s) => str_fits(s),
        PayloadView::Image(b) => bytes_fits(b),
        PayloadView::File(n, b) => str_fits(n) && bytes_fits(b),
        PayloadView::UserConnect => true,
        PayloadView::UserDisconnect => true,
        PayloadView::UserNameChange(s) => str_fits(s),
        PayloadView::UserColorChange(..) => true,
        PayloadView::RecoverableError(s) => str_fits(s),
        PayloadView::UnrecoverableError(s) => str_fits(s),
        PayloadView::LoginRequest(u, p) => str_fits(u) && str_fits(p),
        PayloadView::LoginResponse(u) => opt_user_fits(u),
        PayloadView::RegisterRequest(u, p, ..) => str_fits(u) && str_fits(p),
        PayloadView::RegisterResponse(u) => opt_user_fits(u),
        PayloadView::OldMessagesRequest => true,
        PayloadView::OldMessagesResponse(es) => entries_fit(es),
    }
}

/// The whole envelope can be framed: every prefix holds its value and the
/// payload fits the frame's own length prefix.
pub open spec fn message_fits(m: MessageView) -> bool {
    &&& payload_fits(m.message)
    &&& user_fits(m.user_info)
    &&& enc_message(m).len() < len_limit()
}

// ---------------------------------------------------------------------------
// Specification-level parsers.  Each returns the parsed value and the
// remaining bytes, or `None` when the bytes fit no encoding.
// ---------------------------------------------------------------------------

/// One byte.
pub open spec fn parse_u8(b: Seq<u8>) -> Option<(u8, Seq<u8>)> {
    if b.len() >= 1 {
        Some((b[0], b.skip(1)))
    } else {
        None
    }
}

/// The value of the first four bytes, big-endian.
pub open spec fn be32(b: Seq<u8>) -> u32 {
    ((b[0] as u32) << 24) | ((b[1] as u32) << 16) | ((b[2] as u32) << 8) | (b[3] as u32)
}

/// The value of the first eight bytes, big-endian.
pub open spec fn be64(b: Seq<u8>) -> u64 {
    ((b[0] as u64) << 56) | ((b[1] as u64) << 48) | ((b[2] as u64) << 40) | ((b[3] as u64) << 32)
        | ((b[4] as u64) << 24) | ((b[5] as u64) << 16) | ((b[6] as u64) << 8) | (b[7] as u64)
}

/// A 32-bit unsigned integer.
pub open spec fn parse_u32(b: Seq<u8>) -> Option<(u32, Seq<u8>)> {
    if b.len() >= 4 {
        Some((be32(b), b.skip(4)))
    } else {
        None
    }
}

/// A 64-bit unsigned integer.
pub open spec fn parse_u64(b: Seq<u8>) -> Option<(u64, Seq<u8>)> {
    if b.len() >= 8 {
        Some((be64(b), b.skip(8)))
    } else {
        None
    }
}

/// A signed 32-bit integer, shifted back by 2^31.
pub open spec fn parse_i32(b: Seq<u8>) -> Option<(i32, Seq<u8>)> {
    match parse_u32(b) {
        Some((n, r)) => Some((((n as int) - 0x8000_0000) as i32, r)),
        None => None,
    }
}

/// A length-prefixed byte blob.
pub open spec fn parse_bytes(b: Seq<u8>) -> Option<(Seq<u8>, Seq<u8>)> {
    match parse_u32(b) {
        Some((n, r)) => if r.len() >= n {
            Some((r.take(n as int), r.skip(n as int)))
        } else {
            None
        },
        None => None,
    }
}

/// A length-prefixed UTF-8 string.
pub open spec fn parse_str(b: Seq<u8>) -> Option<(Seq<char>, Seq<u8>)> {
    match parse_bytes(b) {
        Some((bs, r)) => if valid_utf8(bs) {
            Some((decode_utf8(bs), r))
        } else {
            None
        },
        None => None,
    }
}

/// A colour triple.
pub open spec fn parse_color(b: Seq<u8>) -> Option<((u8, u8, u8), Seq<u8>)> {
    if b.len() >= 3 {
        Some(((b[0], b[1], b[2]), b.skip(3)))
    } else {
        None
    }
}

/// A user record.
pub open spec fn parse_user(b: Seq<u8>) -> Option<(UserInfoView, Seq<u8>)> {
    match parse_i32(b) {
        Some((id, r1)) => match parse_str(r1) {
            Some((name, r2)) => match parse_color(r2) {
                Some((color, r3)) => Some(
                    (UserInfoView { id, username: name, color }, r3),
                ),
                None => None,
            },
            None => None,
        },
        None => None,
    }
}

/// An optional user record.
pub open spec fn parse_opt_user(b: Seq<u8>) -> Option<(Option<UserInfoView>, Seq<u8>)> {
    match parse_u8(b) {
        Some((tag, r)) => if tag == 0 {
            Some((None, r))
        } else if tag == 1 {
            match parse_user(r) {
                Some((u, r2)) => Some((Some(u), r2)),
                None => None,
            }
        } else {
            None
        },
        None => None,
    }
}

/// Exactly `n` history entries.
pub open spec fn parse_entries(b: Seq<u8>, n: nat) -> Option<
    (Seq<(Seq<char>, UserInfoView)>, Seq<u8>),
>
    decreases n,
{
    if n == 0 {
        Some((Seq::empty(), b))
    } else {
        match parse_str(b) {
            Some((s, r1)) => match parse_user(r1) {
                Some((u, r2)) => match parse_entries(r2, (n - 1) as nat) {
                    Some((tail, r3)) => Some((seq![(s, u)] + tail, r3)),
                    None => None,
                },
                None => None,
            },
            None => None,
        }
    }
}

/// A history list: count, then that many entries.
pub open spec fn parse_history(b: Seq<u8>) -> Option<(Seq<(Seq<char>, UserInfoView)>, Seq<u8>)> {
    match parse_u32(b) {
        Some((n, r)) => parse_entries(r, n as nat),
        None => None,
    }
}

/// One payload: a tag byte, then the variant's fields.
pub open spec fn parse_payload(b: Seq<u8>) -> Option<(PayloadView, Seq<u8>)> {
    match parse_u8(b) {
        Some((tag, r)) => {
            if tag == 0 {
                match parse_str(r) {
                    Some((s, r2)) => Some((PayloadView::Text(s), r2)),
                    None => None,
                }
            } else if tag == 1 {
                match parse_bytes(r) {
                    Some((bs, r2)) => Some((PayloadView::Image(bs), r2)),
                    None => None,
                }
            } else if tag == 2 {
                match parse_str(r) {
                    Some((n, r2)) => match parse_bytes(r2) {
                        Some((bs, r3)) => Some((PayloadView::File(n, bs), r3)),
                        None => None,
                    },
                    None => None,
                }
            } else if tag == 3 {
                Some((PayloadView::UserConnect, r))
            } else if tag == 4 {
                Some((PayloadView::UserDisconnect, r))
            } else if tag == 5 {
                match parse_str(r) {
                    Some((s, r2)) => Some((PayloadView::UserNameChange(s), r2)),
                    None => None,
                }
            } else if tag == 6 {
                match parse_color(r) {
                    Some((c, r2)) => Some((PayloadView::UserColorChange(c.0, c.1, c.2), r2)),
                    None => None,
                }
            } else if tag == 7 {
                match parse_str(r) {
                    Some((s, r2)) => Some((PayloadView::RecoverableError(s), r2)),
                    None => None,
                }
            } else if tag == 8 {
                match parse_str(r) {
                    Some((s, r2)) => Some((PayloadView::UnrecoverableError(s), r2)),
                    None => None,
                }
            } else if tag == 9 {
                match parse_str(r) {
                    Some((u, r2)) => match parse_str(r2) {
                        Some((p, r3)) => Some((PayloadView::LoginRequest(u, p), r3)),
                        None => None,
                    },
                    None => None,
                }
            } else if tag == 10 {
                match parse_opt_user(r) {
                    Some((u, r2)) => Some((PayloadView::LoginResponse(u), r2)),
                    None => None,
                }
            } else if tag == 11 {
                match parse_str(r) {
                    Some((u, r2)) => match parse_str(r2) {
                        Some((p, r3)) => match parse_color(r3) {
                            Some((c, r4)) => Some(
                                (PayloadView::RegisterRequest(u, p, c.0, c.1, c.2), r4),
                            ),
                            None => None,
                        },
                        None => None,
                    },
                    None => None,
                }
            } else if tag == 12 {
                match parse_opt_user(r) {
                    Some((u, r2)) => Some((PayloadView::RegisterResponse(u), r2)),
                    None => None,
                }
            } else if tag == 13 {
                Some((PayloadView::OldMessagesRequest, r))
            } else if tag == 14 {
                match parse_history(r) {
                    Some((es, r2)) => Some((PayloadView::OldMessagesResponse(es), r2)),
                    None => None,
                }
            } else {
                None
            }
        },
        None => None,
    }
}

/// A whole envelope: payload, author, timestamp, nothing left over.
pub open spec fn parse_message(b: Seq<u8>) -> Option<MessageView> {
    match parse_payload(b) {
        Some((p, r1)) => match parse_user(r1) {
            Some((u, r2)) => match parse_u64(r2) {
                Some((dt, r3)) => if r3.len() == 0 {
                    Some(MessageView { message: p, user_info: u, datetime: dt })
                } else {
                    None
                },
                None => None,
            },
            None => None,
        },
        None => None,
    }
}

/// A whole frame: the length prefix must name exactly the bytes that follow.
pub open spec fn spec_decode(b: Seq<u8>) -> Option<MessageView> {
    match parse_u32(b) {
        Some((n, r)) => if r.len() == n {
            parse_message(r)
        } else {
            None
        },
        None => None,
    }
}

// ---------------------------------------------------------------------------
// Round-trip lemmas: parsing an encoding (with anything after it) yields the
// encoded value and leaves exactly the trailing bytes.
// ---------------------------------------------------------------------------

/// A byte masked to its low eight bits is a byte.
proof fn lemma_mask32(x: u32)
    ensures
        (x & 0xff) < 256,
{
    assert((x & 0xff) < 256) by (bit_vector);
}

/// A byte masked to its low eight bits is a byte.
proof fn lemma_mask64(x: u64)
    ensures
        (x & 0xff) < 256,
{
    assert((x & 0xff) < 256) by (bit_vector);
}

proof fn lemma_parse_u8_enc(t: u8, rest: Seq<u8>)
    ensures
        parse_u8(seq![t] + rest) == Some((t, rest)),
{
    let b = seq![t] + rest;
    assert(b[0] == t);
    assert(b.skip(1) =~= rest);
}

proof fn lemma_parse_u32_enc(n: u32, rest: Seq<u8>)
    ensures
        parse_u32(enc_u32(n) + rest) == Some((n, rest)),
{
    let b = enc_u32(n) + rest;
    assert(b[0] == ((n >> 24) & 0xff) as u8);
    assert(b[1] == ((n >> 16) & 0xff) as u8);
    assert(b[2] == ((n >> 8) & 0xff) as u8);
    assert(b[3] == (n & 0xff) as u8);
    assert(((((n >> 24) & 0xff) as u8 as u32) << 24) | ((((n >> 16) & 0xff) as u8 as u32) << 16)
        | ((((n >> 8) & 0xff) as u8 as u32) << 8) | ((n & 0xff) as u8 as u32) == n) by (bit_vector);
    assert(be32(b) == n);
    assert(b.skip(4) =~= rest);
}

proof fn lemma_parse_u64_enc(n: u64, rest: Seq<u8>)
    ensures
        parse_u64(enc_u64(n) + rest) == Some((n, rest)),
{
    let b = enc_u64(n) + rest;
    assert(b[0] == ((n >> 56) & 0xff) as u8);
    assert(b[1] == ((n >> 48) & 0xff) as u8);
    assert(b[2] == ((n >> 40) & 0xff) as u8);
    assert(b[3] == ((n >> 32) & 0xff) as u8);
    assert(b[4] == ((n >> 24) & 0xff) as u8);
    assert(b[5] == ((n >> 16) & 0xff) as u8);
    assert(b[6] == ((n >> 8) & 0xff) as u8);
    assert(b[7] == (n & 0xff) as u8);
    assert(((((n >> 56) & 0xff) as u8 as u64) << 56) | ((((n >> 48) & 0xff) as u8 as u64) << 48)
        | ((((n >> 40) & 0xff) as u8 as u64) << 40) | ((((n >> 32) & 0xff) as u8 as u64) << 32)
        | ((((n >> 24) & 0xff) as u8 as u64) << 24) | ((((n >> 16) & 0xff) as u8 as u64) << 16)
        | ((((n >> 8) & 0xff) as u8 as u64) << 8) | ((n & 0xff) as u8 as u64) == n) by (bit_vector);
    assert(be64(b) == n);
    assert(b.skip(8) =~= rest);
}

proof fn lemma_parse_i32_enc(n: i32, rest: Seq<u8>)
    ensures
        parse_i32(enc_i32(n) + rest) == Some((n, rest)),
{
    lemma_parse_u32_enc((n + 0x8000_0000) as u32, rest);
}

proof fn lemma_parse_bytes_enc(bs: Seq<u8>, rest: Seq<u8>)
    requires
        bytes_fits(bs),
    ensures
        parse_bytes(enc_bytes(bs) + rest) == Some((bs, rest)),
{
    let n = bs.len() as u32;
    assert(enc_bytes(bs) + rest =~= enc_u32(n) + (bs + rest));
    lemma_parse_u32_enc(n, bs + rest);
    assert((bs + rest).take(n as int) =~= bs);
    assert((bs + rest).skip(n as int) =~= rest);
}

proof fn lemma_parse_str_enc(s: Seq<char>, rest: Seq<u8>)
    requires
        str_fits(s),
    ensures
        parse_str(enc_str(s) + rest) == Some((s, rest)),
{
    lemma_parse_bytes_enc(encode_utf8(s), rest);
    vstd::utf8::encode_utf8_valid_utf8(s);
    vstd::utf8::encode_utf8_decode_utf8(s);
}

proof fn lemma_parse_color_enc(c: (u8, u8, u8), rest: Seq<u8>)
    ensures
        parse_color(enc_color(c) + rest) == Some((c, rest)),
{
    let b = enc_color(c) + rest;
    assert(b[0] == c.0 && b[1] == c.1 && b[2] == c.2);
    assert(b.skip(3) =~= rest);
    assert((b[0], b[1], b[2]) == c);
}

proof fn lemma_parse_user_enc(u: UserInfoView, rest: Seq<u8>)
    requires
        user_fits(u),
    ensures
        parse_user(enc_user(u) + rest) == Some((u, rest)),
{
    assert(enc_user(u) + rest =~= enc_i32(u.id) + (enc_str(u.username) + (enc_color(u.color)
        + rest)));
    lemma_parse_i32_enc(u.id, enc_str(u.username) + (enc_color(u.color) + rest));
    lemma_parse_str_enc(u.username, enc_color(u.color) + rest);
    lemma_parse_color_enc(u.color, rest);
    assert(parse_user(enc_user(u) + rest) == Some((u, rest)));
}

proof fn lemma_parse_opt_user_enc(u: Option<UserInfoView>, rest: Seq<u8>)
    requires
        opt_user_fits(u),
    ensures
        parse_opt_user(enc_opt_user(u) + rest) == Some((u, rest)),
{
    match u {
        None => {
            lemma_parse_u8_enc(0, rest);
        },
        Some(x) => {
            assert(enc_opt_user(u) + rest =~= seq![1u8] + (enc_user(x) + rest));
            lemma_parse_u8_enc(1, enc_user(x) + rest);
            lemma_parse_user_enc(x, rest);
        },
    }
}

#[verifier::spinoff_prover]
#[verifier::rlimit(60)]
proof fn lemma_parse_entries_enc(es: Seq<(Seq<char>, UserInfoView)>, rest: Seq<u8>)
    requires
        forall|i: int| 0 <= i < es.len() ==> str_fits(#[trigger] es[i].0) && user_fits(es[i].1),
    ensures
        parse_entries(enc_entries(es) + rest, es.len()) == Some((es, rest)),
    decreases es.len(),
{
    if es.len() == 0 {
        assert(enc_entries(es) + rest =~= rest);
        assert(parse_entries(rest, 0) == Some((Seq::<(Seq<char>, UserInfoView)>::empty(), rest)));
        assert(es =~= Seq::<(Seq<char>, UserInfoView)>::empty());
    } else {
        let e = es[0];
        let tail = es.drop_first();
        assert(enc_entries(es) + rest =~= enc_str(e.0) + (enc_user(e.1) + (enc_entries(tail)
            + rest)));
        lemma_parse_str_enc(e.0, enc_user(e.1) + (enc_entries(tail) + rest));
        lemma_parse_user_enc(e.1, enc_entries(tail) + rest);
        assert(forall|i: int|
            0 <= i < tail.len() ==> str_fits(#[trigger] tail[i].0) && user_fits(tail[i].1));
        lemma_parse_entries_enc(tail, rest);
        assert(seq![e] + tail =~= es);
    }
}

proof fn lemma_parse_history_enc(es: Seq<(Seq<char>, UserInfoView)>, rest: Seq<u8>)
    requires
        entries_fit(es),
    ensures
        parse_history(enc_history(es) + rest) == Some((es, rest)),
{
    let n = es.len() as u32;
    assert(enc_history(es) + rest =~= enc_u32(n) + (enc_entries(es) + rest));
    lemma_parse_u32_enc(n, enc_entries(es) + rest);
    lemma_parse_entries_enc(es, rest);
}

#[verifier::spinoff_prover]
#[verifier::rlimit(60)]
proof fn lemma_parse_payload_enc(p: PayloadView, rest: Seq<u8>)
    requires
        payload_fits(p),
    ensures
        parse_payload(enc_payload(p) + rest) == Some((p, rest)),
{
    match p {
        PayloadView::Text(s) => {
            assert(enc_payload(p) + rest =~= seq![0u8] + (enc_str(s) + rest));
            lemma_parse_u8_enc(0, enc_str(s) + rest);
            lemma_parse_str_enc(s, rest);
        },
        PayloadView::Image(b) => {
            assert(enc_payload(p) + rest =~= seq![1u8] + (enc_bytes(b) + rest));
            lemma_parse_u8_enc(1, enc_bytes(b) + rest);
            lemma_parse_bytes_enc(b, rest);
        },
        PayloadView::File(n, b) => {
            assert(enc_payload(p) + rest =~= seq![2u8] + (enc_str(n) + (enc_bytes(b) + rest)));
            lemma_parse_u8_enc(2, enc_str(n) + (enc_bytes(b) + rest));
            lemma_parse_str_enc(n, enc_bytes(b) + rest);
            lemma_parse_bytes_enc(b, rest);
        },
        PayloadView::UserConnect => {
            lemma_parse_u8_enc(3, rest);
        },
        PayloadView::UserDisconnect => {
            lemma_parse_u8_enc(4, rest);
        },
        PayloadView::UserNameChange(s) => {
            assert(enc_payload(p) + rest =~= seq![5u8] + (enc_str(s) + rest));
            lemma_parse_u8_enc(5, enc_str(s) + rest);
            lemma_parse_str_enc(s, rest);
        },
        PayloadView::UserColorChange(r, g, b) => {
            assert(enc_payload(p) + rest =~= seq![6u8] + (enc_color((r, g, b)) + rest));
            lemma_parse_u8_enc(6, enc_color((r, g, b)) + rest);
            lemma_parse_color_enc((r, g, b), rest);
        },
        PayloadView::RecoverableError(s) => {
            assert(enc_payload(p) + rest =~= seq![7u8] + (enc_str(s) + rest));
            lemma_parse_u8_enc(7, enc_str(s) + rest);
            lemma_parse_str_enc(s, rest);
        },
        PayloadView::UnrecoverableError(s) => {
            assert(enc_payload(p) + rest =~= seq![8u8] + (enc_str(s) + rest));
            lemma_parse_u8_enc(8, enc_str(s) + rest);
            lemma_parse_str_enc(s, rest);
        },
        PayloadView::LoginRequest(u, pw) => {
            assert(enc_payload(p) + rest =~= seq![9u8] + (enc_str(u) + (enc_str(pw) + rest)));
            lemma_parse_u8_enc(9, enc_str(u) + (enc_str(pw) + rest));
            lemma_parse_str_enc(u, enc_str(pw) + rest);
            lemma_parse_str_enc(pw, rest);
        },
        PayloadView::LoginResponse(u) => {
            assert(enc_payload(p) + rest =~= seq![10u8] + (enc_opt_user(u) + rest));
            lemma_parse_u8_enc(10, enc_opt_user(u) + rest);
            lemma_parse_opt_user_enc(u, rest);
        },
        PayloadView::RegisterRequest(u, pw, r, g, b) => {
            assert(enc_payload(p) + rest =~= seq![11u8] + (enc_str(u) + (enc_str(pw) + (enc_color(
                (r, g, b),
            ) + rest))));
            lemma_parse_u8_enc(11, enc_str(u) + (enc_str(pw) + (enc_color((r, g, b)) + rest)));
            lemma_parse_str_enc(u, enc_str(pw) + (enc_color((r, g, b)) + rest));
            lemma_parse_str_enc(pw, enc_color((r, g, b)) + rest);
            lemma_parse_color_enc((r, g, b), rest);
        },
        PayloadView::RegisterResponse(u) => {
            assert(enc_payload(p) + rest =~= seq![12u8] + (enc_opt_user(u) + rest));
            lemma_parse_u8_enc(12, enc_opt_user(u) + rest);
            lemma_parse_opt_user_enc(u, rest);
        },
        PayloadView::OldMessagesRequest => {
            lemma_parse_u8_enc(13, rest);
        },
        PayloadView::OldMessagesResponse(es) => {
            assert(enc_payload(p) + rest =~= seq![14u8] + (enc_history(es) + rest));
            lemma_parse_u8_enc(14, enc_history(es) + rest);
            lemma_parse_history_enc(es, rest);
        },
    }
}

/// Parsing the payload bytes of an encoded envelope yields that envelope.
pub proof fn lemma_parse_message_enc(m: MessageView)
    requires
        payload_fits(m.message),
        user_fits(m.user_info),
    ensures
        parse_message(enc_message(m)) == Some(m),
{
    let empty = Seq::<u8>::empty();
    assert(enc_message(m) =~= enc_payload(m.message) + (enc_user(m.user_info) + (enc_u64(
        m.datetime,
    ) + empty)));
    lemma_parse_payload_enc(m.message, enc_user(m.user_info) + (enc_u64(m.datetime) + empty));
    lemma_parse_user_enc(m.user_info, enc_u64(m.datetime) + empty);
    lemma_parse_u64_enc(m.datetime, empty);
}

/// The round-trip law of the codec: decoding an encoded frame yields the
/// original envelope, for every payload variant.
pub proof fn lemma_decode_encode(m: MessageView)
    requires
        message_fits(m),
    ensures
        spec_decode(spec_frame(m)) == Some(m),
{
    let body = enc_message(m);
    let n = body.len() as u32;
    lemma_parse_u32_enc(n, body);
    lemma_parse_message_enc(m);
}

// ---------------------------------------------------------------------------
// Executable encoder
// ---------------------------------------------------------------------------

fn push_slice(out: &mut Vec<u8>, s: &[u8])
    ensures
        final(out)@ == old(out)@ + s@,
{
    let mut i: usize = 0;
    while i < s.len()
        invariant
            i <= s@.len(),
            out@ == old(out)@ + s@.take(i as int),
        decreases s@.len() - i,
    {
        let b: u8 = *vstd::slice::slice_index_get(s, i);
        out.push(b);
        assert(old(out)@ + s@.take(i as int) + seq![s@[i as int]] =~= old(out)@ + s@.take(
            i as int + 1,
        ));
        i = i + 1;
    }
    assert(s@.take(s@.len() as int) =~= s@);
}

fn push_u32(out: &mut Vec<u8>, n: u32)
    ensures
        final(out)@ == old(out)@ + enc_u32(n),
{
    proof {
        lemma_mask32(n >> 24);
        lemma_mask32(n >> 16);
        lemma_mask32(n >> 8);
        lemma_mask32(n);
    }
    out.push(((n >> 24) & 0xff) as u8);
    out.push(((n >> 16) & 0xff) as u8);
    out.push(((n >> 8) & 0xff) as u8);
    out.push((n & 0xff) as u8);
    assert(out@ =~= old(out)@ + enc_u32(n));
}

fn push_u64(out: &mut Vec<u8>, n: u64)
    ensures
        final(out)@ == old(out)@ + enc_u64(n),
{
    proof {
        lemma_mask64(n >> 56);
        lemma_mask64(n >> 48);
        lemma_mask64(n >> 40);
        lemma_mask64(n >> 32);
        lemma_mask64(n >> 24);
        lemma_mask64(n >> 16);
        lemma_mask64(n >> 8);
        lemma_mask64(n);
    }
    out.push(((n >> 56) & 0xff) as u8);
    out.push(((n >> 48) & 0xff) as u8);
    out.push(((n >> 40) & 0xff) as u8);
    out.push(((n >> 32) & 0xff) as u8);
    out.push(((n >> 24) & 0xff) as u8);
    out.push(((n >> 16) & 0xff) as u8);
    out.push(((n >> 8) & 0xff) as u8);
    out.push((n & 0xff) as u8);
    assert(out@ =~= old(out)@ + enc_u64(n));
}

fn push_i32(out: &mut Vec<u8>, n: i32)
    ensures
        final(out)@ == old(out)@ + enc_i32(n),
{
    let wide: i64 = (n as i64) + 0x8000_0000;
    push_u32(out, wide as u32);
}

fn push_bytes(out: &mut Vec<u8>, b: &Vec<u8>) -> (r: Result<(), ProtocolError>)
    ensures
        match r {
            Ok(()) => bytes_fits(b@) && final(out)@ == old(out)@ + enc_bytes(b@),
            Err(e) => e == ProtocolError::Malformed && !bytes_fits(b@),
        },
{
    if (b.len() as u64) >= 0x1_0000_0000u64 {
        return Err(ProtocolError::Malformed);
    }
    push_u32(out, b.len() as u32);
    push_slice(out, b.as_slice());
    assert(old(out)@ + enc_u32(b@.len() as u32) + b@ =~= old(out)@ + enc_bytes(b@));
    Ok(())
}

fn push_str(out: &mut Vec<u8>, s: &String) -> (r: Result<(), ProtocolError>)
    ensures
        match r {
            Ok(()) => str_fits(s@) && final(out)@ == old(out)@ + enc_str(s@),
            Err(e) => e == ProtocolError::Malformed && !str_fits(s@),
        },
{
    let bytes: &[u8] = s.as_str().as_bytes();
    if (bytes.len() as u64) >= 0x1_0000_0000u64 {
        return Err(ProtocolError::Malformed);
    }
    push_u32(out, bytes.len() as u32);
    push_slice(out, bytes);
    assert(old(out)@ + enc_u32(encode_utf8(s@).len() as u32) + encode_utf8(s@) =~= old(out)@
        + enc_str(s@));
    Ok(())
}

fn push_color(out: &mut Vec<u8>, r: u8, g: u8, b: u8)
    ensures
        final(out)@ == old(out)@ + enc_color((r, g, b)),
{
    out.push(r);
    out.push(g);
    out.push(b);
    assert(out@ =~= old(out)@ + enc_color((r, g, b)));
}

fn push_user(out: &mut Vec<u8>, u: &UserInfo) -> (r: Result<(), ProtocolError>)
    ensures
        match r {
            Ok(()) => user_fits(u@) && final(out)@ == old(out)@ + enc_user(u@),
            Err(e) => e == ProtocolError::Malformed && !user_fits(u@),
        },
{
    push_i32(out, u.id);
    match push_str(out, &u.username) {
        Ok(()) => {},
        Err(e) => {
            return Err(e);
        },
    }
    push_color(out, u.color.0, u.color.1, u.color.2);
    assert(old(out)@ + enc_i32(u@.id) + enc_str(u@.username) + enc_color(u@.color) =~= old(out)@
        + enc_user(u@));
    Ok(())
}

fn push_opt_user(out: &mut Vec<u8>, u: &Option<UserInfo>) -> (r: Result<(), ProtocolError>)
    ensures
        match r {
            Ok(()) => opt_user_fits(opt_user_view(*u)) && final(out)@ == old(out)@ + enc_opt_user(
                opt_user_view(*u),
            ),
            Err(e) => e == ProtocolError::Malformed && !opt_user_fits(opt_user_view(*u)),
        },
{
    match u {
        None => {
            out.push(0u8);
            assert(out@ =~= old(out)@ + enc_opt_user(opt_user_view(*u)));
            Ok(())
        },
        Some(x) => {
            out.push(1u8);
            match push_user(out, x) {
                Ok(()) => {
                    assert(old(out)@ + seq![1u8] + enc_user(x@) =~= old(out)@ + enc_opt_user(
                        opt_user_view(*u),
                    ));
                    Ok(())
                },
                Err(e) => Err(e),
            }
        },
    }
}

/// One entry out of bounds of its prefixes spoils the whole list.
proof fn lemma_entries_unfit(es: Seq<(Seq<char>, UserInfoView)>, i: int)
    requires
        0 <= i < es.len(),
        !(str_fits(es[i].0) && user_fits(es[i].1)),
    ensures
        !entries_fit(es),
{
    if entries_fit(es) {
        assert(str_fits(es[i].0) && user_fits(es[i].1));
    }
}

/// Concatenation splits over encoded entry lists.
proof fn lemma_enc_entries_append(a: Seq<(Seq<char>, UserInfoView)>, b: Seq<(Seq<char>, UserInfoView)>)
    ensures
        enc_entries(a + b) == enc_entries(a) + enc_entries(b),
    decreases a.len(),
{
    if a.len() == 0 {
        assert(a + b =~= b);
        assert(enc_entries(a) + enc_entries(b) =~= enc_entries(b));
    } else {
        assert((a + b).drop_first() =~= a.drop_first() + b);
        lemma_enc_entries_append(a.drop_first(), b);
        assert(enc_entries(a + b) =~= enc_entries(a) + enc_entries(b));
    }
}

fn push_entries(out: &mut Vec<u8>, es: &Vec<(String, UserInfo)>) -> (r: Result<
    (),
    ProtocolError,
>)
    ensures
        match r {
            Ok(()) => (forall|i: int|
                0 <= i < es@.len() ==> str_fits(#[trigger] entries_view(es@)[i].0) && user_fits(
                    entries_view(es@)[i].1,
                )) && final(out)@ == old(out)@ + enc_entries(entries_view(es@)),
            Err(e) => e == ProtocolError::Malformed && !entries_fit(entries_view(es@)),
        },
{
    let ghost ev = entries_view(es@);
    let mut i: usize = 0;
    while i < es.len()
        invariant
            i <= es@.len(),
            ev == entries_view(es@),
            out@ == old(out)@ + enc_entries(ev.take(i as int)),
            forall|k: int| 0 <= k < i ==> str_fits(#[trigger] ev[k].0) && user_fits(ev[k].1),
        decreases es@.len() - i,
    {
        let entry = &es[i];
        match push_str(out, &entry.0) {
            Ok(()) => {},
            Err(e) => {
                proof {
                    assert(ev[i as int].0 == es@[i as int].0@);
                    lemma_entries_unfit(ev, i as int);
                }
                return Err(e);
            },
        }
        match push_user(out, &entry.1) {
            Ok(()) => {},
            Err(e) => {
                proof {
                    assert(ev[i as int].1 == es@[i as int].1@);
                    lemma_entries_unfit(ev, i as int);
                }
                return Err(e);
            },
        }
        proof {
            assert(ev[i as int] == history_entry_view(es@[i as int]));
            assert(str_fits(ev[i as int].0));
            assert(user_fits(ev[i as int].1));
            assert forall|k: int| 0 <= k < i as int + 1 implies str_fits(#[trigger] ev[k].0)
                && user_fits(ev[k].1) by {
                if k == i as int {
                    assert(str_fits(ev[i as int].0) && user_fits(ev[i as int].1));
                }
            }
            lemma_enc_entries_append(ev.take(i as int), seq![ev[i as int]]);
            assert(ev.take(i as int) + seq![ev[i as int]] =~= ev.take(i as int + 1));
            let single = seq![ev[i as int]];
            assert(single.drop_first() =~= Seq::<(Seq<char>, UserInfoView)>::empty());
            assert(enc_entries(Seq::<(Seq<char>, UserInfoView)>::empty()) == Seq::<u8>::empty());
            assert(single[0] == ev[i as int]);
            assert(enc_entries(single) =~= enc_str(ev[i as int].0) + enc_user(ev[i as int].1));
            assert(out@ =~= old(out)@ + enc_entries(ev.take(i as int + 1)));
        }
        i = i + 1;
    }
    assert(ev.take(es@.len() as int) =~= ev);
    Ok(())
}

fn push_history(out: &mut Vec<u8>, es: &Vec<(String, UserInfo)>) -> (r: Result<
    (),
    ProtocolError,
>)
    ensures
        match r {
            Ok(()) => entries_fit(entries_view(es@)) && final(out)@ == old(out)@ + enc_history(
                entries_view(es@),
            ),
            Err(e) => e == ProtocolError::Malformed && !entries_fit(entries_view(es@)),
        },
{
    if (es.len() as u64) >= 0x1_0000_0000u64 {
        return Err(ProtocolError::Malformed);
    }
    push_u32(out, es.len() as u32);
    match push_entries(out, es) {
        Ok(()) => {
            assert(old(out)@ + enc_u32(entries_view(es@).len() as u32) + enc_entries(entries_view(
                es@,
            )) =~= old(out)@ + enc_history(entries_view(es@)));
            Ok(())
        },
        Err(e) => Err(e),
    }
}


fn push_tag(out: &mut Vec<u8>, tag: u8)
    ensures
        final(out)@ == old(out)@ + seq![tag],
{
    out.push(tag);
    assert(out@ =~= old(out)@ + seq![tag]);
}

fn push_tagged_str(out: &mut Vec<u8>, tag: u8, s: &String) -> (r: Result<(), ProtocolError>)
    ensures
        match r {
            Ok(()) => str_fits(s@) && final(out)@ == old(out)@ + (seq![tag] + enc_str(s@)),
            Err(e) => e == ProtocolError::Malformed && !str_fits(s@),
        },
{
    push_tag(out, tag);
    match push_str(out, s) {
        Ok(()) => {
            assert(old(out)@ + seq![tag] + enc_str(s@) =~= old(out)@ + (seq![tag] + enc_str(s@)));
            Ok(())
        },
        Err(e) => Err(e),
    }
}

fn push_tagged_opt_user(out: &mut Vec<u8>, tag: u8, u: &Option<UserInfo>) -> (r: Result<
    (),
    ProtocolError,
>)
    ensures
        match r {
            Ok(()) => opt_user_fits(opt_user_view(*u)) && final(out)@ == old(out)@ + (seq![tag]
                + enc_opt_user(opt_user_view(*u))),
            Err(e) => e == ProtocolError::Malformed && !opt_user_fits(opt_user_view(*u)),
        },
{
    push_tag(out, tag);
    match push_opt_user(out, u) {
        Ok(()) => {
            assert(old(out)@ + seq![tag] + enc_opt_user(opt_user_view(*u)) =~= old(out)@ + (
            seq![tag] + enc_opt_user(opt_user_view(*u))));
            Ok(())
        },
        Err(e) => Err(e),
    }
}

#[verifier::spinoff_prover]
#[verifier::rlimit(60)]
fn push_payload(out: &mut Vec<u8>, m: &MessageType) -> (r: Result<(), ProtocolError>)
    ensures
        match r {
            Ok(()) => payload_fits(m@) && final(out)@ == old(out)@ + enc_payload(m@),
            Err(e) => e == ProtocolError::Malformed && !payload_fits(m@),
        },
{
    match m {
        MessageType::Text(s) => push_tagged_str(out, 0, s),
        MessageType::Image(b) => {
            push_tag(out, 1);
            match push_bytes(out, b) {
                Ok(()) => {
                    assert(old(out)@ + seq![1u8] + enc_bytes(b@) =~= old(out)@ + enc_payload(m@));
                    Ok(())
                },
                Err(e) => Err(e),
            }
        },
        MessageType::File(n, b) => {
            push_tag(out, 2);
            match push_str(out, n) {
                Ok(()) => {},
                Err(e) => {
                    return Err(e);
                },
            }
            match push_bytes(out, b) {
                Ok(()) => {},
                Err(e) => {
                    return Err(e);
                },
            }
            assert(old(out)@ + seq![2u8] + enc_str(n@) + enc_bytes(b@) =~= old(out)@ + enc_payload(
                m@,
            ));
            Ok(())
        },
        MessageType::UserConnect() => {
            push_tag(out, 3);
            Ok(())
        },
        MessageType::UserDisconnect() => {
            push_tag(out, 4);
            Ok(())
        },
        MessageType::UserNameChange(s) => push_tagged_str(out, 5, s),
        MessageType::UserColorChange(r, g, b) => {
            out.push(6u8);
            out.push(*r);
            out.push(*g);
            out.push(*b);
            assert(out@ =~= old(out)@ + enc_payload(m@));
            Ok(())
        },
        MessageType::RecoverableError(s) => push_tagged_str(out, 7, s),
        MessageType::UnrecoverableError(s) => push_tagged_str(out, 8, s),
        MessageType::LoginRequest(u, p) => {
            push_tag(out, 9);
            match push_str(out, u) {
                Ok(()) => {},
                Err(e) => {
                    return Err(e);
                },
            }
            match push_str(out, p) {
                Ok(()) => {},
                Err(e) => {
                    return Err(e);
                },
            }
            assert(old(out)@ + seq![9u8] + enc_str(u@) + enc_str(p@) =~= old(out)@ + enc_payload(
                m@,
            ));
            Ok(())
        },
        MessageType::LoginResponse(u) => push_tagged_opt_user(out, 10, u),
        MessageType::RegisterRequest(u, p, r, g, b) => {
            push_tag(out, 11);
            match push_str(out, u) {
                Ok(()) => {},
                Err(e) => {
                    return Err(e);
                },
            }
            match push_str(out, p) {
                Ok(()) => {},
                Err(e) => {
                    return Err(e);
                },
            }
            out.push(*r);
            out.push(*g);
            out.push(*b);
            assert(out@ =~= old(out)@ + enc_payload(m@));
            Ok(())
        },
        MessageType::RegisterResponse(u) => push_tagged_opt_user(out, 12, u),
        MessageType::OldMessagesRequest() => {
            push_tag(out, 13);
            Ok(())
        },
        MessageType::OldMessagesResponse(es) => {
            push_tag(out, 14);
            match push_history(out, es) {
                Ok(()) => {
                    assert(old(out)@ + seq![14u8] + enc_history(entries_view(es@)) =~= old(out)@
                        + enc_payload(m@));
                    Ok(())
                },
                Err(e) => Err(e),
            }
        },
    }
}

fn push_message(out: &mut Vec<u8>, m: &Message) -> (r: Result<(), ProtocolError>)
    ensures
        match r {
            Ok(()) => payload_fits(m@.message) && user_fits(m@.user_info) && final(out)@ == old(
                out,
            )@ + enc_message(m@),
            Err(e) => e == ProtocolError::Malformed && !(payload_fits(m@.message) && user_fits(
                m@.user_info,
            )),
        },
{
    match push_payload(out, &m.message) {
        Ok(()) => {},
        Err(e) => {
            return Err(e);
        },
    }
    match push_user(out, &m.user_info) {
        Ok(()) => {},
        Err(e) => {
            return Err(e);
        },
    }
    push_u64(out, m.datetime);
    assert(old(out)@ + enc_payload(m@.message) + enc_user(m@.user_info) + enc_u64(m@.datetime)
        =~= old(out)@ + enc_message(m@));
    Ok(())
}

/// Encodes one envelope into a frame: a 4-byte big-endian length prefix
/// followed by the envelope's payload bytes.  Fails exactly when some part of
/// the envelope is too large for its length prefix.
pub fn encode(m: &Message) -> (r: Result<Vec<u8>, ProtocolError>)
    ensures
        match r {
            Ok(v) => message_fits(m@) && v@ == spec_frame(m@),
            Err(e) => e == ProtocolError::Malformed && !message_fits(m@),
        },
{
    let mut body: Vec<u8> = Vec::new();
    match push_message(&mut body, m) {
        Ok(()) => {},
        Err(e) => {
            return Err(e);
        },
    }
    assert(body@ =~= enc_message(m@));
    if (body.len() as u64) >= 0x1_0000_0000u64 {
        return Err(ProtocolError::Malformed);
    }
    let mut out: Vec<u8> = Vec::new();
    push_u32(&mut out, body.len() as u32);
    push_slice(&mut out, body.as_slice());
    assert(out@ =~= spec_frame(m@));
    Ok(out)
}

// ---------------------------------------------------------------------------
// Executable decoder.  Each reader walks the byte slice from a position and
// is proved to agree with the specification parser on the remaining bytes.
// ---------------------------------------------------------------------------

/// Relies on String::from_utf8: it succeeds exactly on valid UTF-8 input and
/// returns the string those bytes encode.
#[verifier::external_body]
fn bytes_to_string(v: Vec<u8>) -> (r: Option<String>)
    ensures
        r is Some <==> valid_utf8(v@),
        r matches Some(s) ==> s@ == decode_utf8(v@),
{
    match String::from_utf8(v) {
        Ok(s) => Some(s),
        Err(_) => None,
    }
}

fn read_u8(b: &[u8], pos: usize) -> (r: Option<(u8, usize)>)
    requires
        pos <= b@.len(),
    ensures
        match r {
            Some(vp) => pos < vp.1 <= b@.len() && parse_u8(b@.skip(pos as int)) == Some(
                (vp.0, b@.skip(vp.1 as int)),
            ),
            None => parse_u8(b@.skip(pos as int)) is None,
        },
{
    if pos < b.len() {
        let v: u8 = *vstd::slice::slice_index_get(b, pos);
        assert(b@.skip(pos as int)[0] == b@[pos as int]);
        assert(b@.skip(pos as int).skip(1) =~= b@.skip(pos as int + 1));
        Some((v, pos + 1))
    } else {
        None
    }
}

fn read_u32(b: &[u8], pos: usize) -> (r: Option<(u32, usize)>)
    requires
        pos <= b@.len(),
    ensures
        match r {
            Some(vp) => pos < vp.1 <= b@.len() && parse_u32(b@.skip(pos as int)) == Some(
                (vp.0, b@.skip(vp.1 as int)),
            ),
            None => parse_u32(b@.skip(pos as int)) is None,
        },
{
    if b.len() - pos >= 4 {
        let b0: u8 = *vstd::slice::slice_index_get(b, pos);
        let b1: u8 = *vstd::slice::slice_index_get(b, pos + 1);
        let b2: u8 = *vstd::slice::slice_index_get(b, pos + 2);
        let b3: u8 = *vstd::slice::slice_index_get(b, pos + 3);
        let v: u32 = ((b0 as u32) << 24) | ((b1 as u32) << 16) | ((b2 as u32) << 8) | (b3 as u32);
        assert(b@.skip(pos as int)[0] == b@[pos as int]);
        assert(b@.skip(pos as int)[1] == b@[pos as int + 1]);
        assert(b@.skip(pos as int)[2] == b@[pos as int + 2]);
        assert(b@.skip(pos as int)[3] == b@[pos as int + 3]);
        assert(v == be32(b@.skip(pos as int)));
        assert(b@.skip(pos as int).skip(4) =~= b@.skip(pos as int + 4));
        Some((v, pos + 4))
    } else {
        None
    }
}

fn read_u64(b: &[u8], pos: usize) -> (r: Option<(u64, usize)>)
    requires
        pos <= b@.len(),
    ensures
        match r {
            Some(vp) => pos < vp.1 <= b@.len() && parse_u64(b@.skip(pos as int)) == Some(
                (vp.0, b@.skip(vp.1 as int)),
            ),
            None => parse_u64(b@.skip(pos as int)) is None,
        },
{
    if b.len() - pos >= 8 {
        let b0: u8 = *vstd::slice::slice_index_get(b, pos);
        let b1: u8 = *vstd::slice::slice_index_get(b, pos + 1);
        let b2: u8 = *vstd::slice::slice_index_get(b, pos + 2);
        let b3: u8 = *vstd::slice::slice_index_get(b, pos + 3);
        let b4: u8 = *vstd::slice::slice_index_get(b, pos + 4);
        let b5: u8 = *vstd::slice::slice_index_get(b, pos + 5);
        let b6: u8 = *vstd::slice::slice_index_get(b, pos + 6);
        let b7: u8 = *vstd::slice::slice_index_get(b, pos + 7);
        let v: u64 = ((b0 as u64) << 56) | ((b1 as u64) << 48) | ((b2 as u64) << 40) | ((
        b3 as u64) << 32) | ((b4 as u64) << 24) | ((b5 as u64) << 16) | ((b6 as u64) << 8) | (
        b7 as u64);
        assert(b@.skip(pos as int)[0] == b@[pos as int]);
        assert(b@.skip(pos as int)[1] == b@[pos as int + 1]);
        assert(b@.skip(pos as int)[2] == b@[pos as int + 2]);
        assert(b@.skip(pos as int)[3] == b@[pos as int + 3]);
        assert(b@.skip(pos as int)[4] == b@[pos as int + 4]);
        assert(b@.skip(pos as int)[5] == b@[pos as int + 5]);
        assert(b@.skip(pos as int)[6] == b@[pos as int + 6]);
        assert(b@.skip(pos as int)[7] == b@[pos as int + 7]);
        assert(v == be64(b@.skip(pos as int)));
        assert(b@.skip(pos as int).skip(8) =~= b@.skip(pos as int + 8));
        Some((v, pos + 8))
    } else {
        None
    }
}

fn read_i32(b: &[u8], pos: usize) -> (r: Option<(i32, usize)>)
    requires
        pos <= b@.len(),
    ensures
        match r {
            Some(vp) => pos < vp.1 <= b@.len() && parse_i32(b@.skip(pos as int)) == Some(
                (vp.0, b@.skip(vp.1 as int)),
            ),
            None => parse_i32(b@.skip(pos as int)) is None,
        },
{
    match read_u32(b, pos) {
        Some((n, p)) => {
            let v: i64 = (n as i64) - 0x8000_0000;
            Some((v as i32, p))
        },
        None => None,
    }
}

fn read_color(b: &[u8], pos: usize) -> (r: Option<((u8, u8, u8), usize)>)
    requires
        pos <= b@.len(),
    ensures
        match r {
            Some(vp) => pos < vp.1 <= b@.len() && parse_color(b@.skip(pos as int)) == Some(
                (vp.0, b@.skip(vp.1 as int)),
            ),
            None => parse_color(b@.skip(pos as int)) is None,
        },
{
    if b.len() - pos >= 3 {
        let b0: u8 = *vstd::slice::slice_index_get(b, pos);
        let b1: u8 = *vstd::slice::slice_index_get(b, pos + 1);
        let b2: u8 = *vstd::slice::slice_index_get(b, pos + 2);
        assert(b@.skip(pos as int)[0] == b@[pos as int]);
        assert(b@.skip(pos as int)[1] == b@[pos as int + 1]);
        assert(b@.skip(pos as int)[2] == b@[pos as int + 2]);
        assert(b@.skip(pos as int).skip(3) =~= b@.skip(pos as int + 3));
        Some(((b0, b1, b2), pos + 3))
    } else {
        None
    }
}

fn read_bytes(b: &[u8], pos: usize) -> (r: Option<(Vec<u8>, usize)>)
    requires
        pos <= b@.len(),
    ensures
        match r {
            Some(vp) => pos <= vp.1 <= b@.len() && parse_bytes(b@.skip(pos as int)) == Some(
                (vp.0@, b@.skip(vp.1 as int)),
            ),
            None => parse_bytes(b@.skip(pos as int)) is None,
        },
{
    match read_u32(b, pos) {
        Some((n, p1)) => {
            if (n as usize) <= b.len() - p1 {
                let sub: &[u8] = vstd::slice::slice_subrange(b, p1, p1 + n as usize);
                let v: Vec<u8> = vstd::slice::slice_to_vec(sub);
                assert(b@.skip(p1 as int).take(n as int) =~= b@.subrange(
                    p1 as int,
                    p1 as int + n as int,
                ));
                assert(b@.skip(p1 as int).skip(n as int) =~= b@.skip(p1 as int + n as int));
                Some((v, p1 + n as usize))
            } else {
                None
            }
        },
        None => None,
    }
}

fn read_str(b: &[u8], pos: usize) -> (r: Option<(String, usize)>)
    requires
        pos <= b@.len(),
    ensures
        match r {
            Some(vp) => pos <= vp.1 <= b@.len() && parse_str(b@.skip(pos as int)) == Some(
                (vp.0@, b@.skip(vp.1 as int)),
            ),
            None => parse_str(b@.skip(pos as int)) is None,
        },
{
    match read_bytes(b, pos) {
        Some((v, p)) => {
            match bytes_to_string(v) {
                Some(s) => Some((s, p)),
                None => None,
            }
        },
        None => None,
    }
}

fn read_user(b: &[u8], pos: usize) -> (r: Option<(UserInfo, usize)>)
    requires
        pos <= b@.len(),
    ensures
        match r {
            Some(vp) => pos <= vp.1 <= b@.len() && parse_user(b@.skip(pos as int)) == Some(
                (vp.0@, b@.skip(vp.1 as int)),
            ),
            None => parse_user(b@.skip(pos as int)) is None,
        },
{
    match read_i32(b, pos) {
        Some((id, p1)) => match read_str(b, p1) {
            Some((name, p2)) => match read_color(b, p2) {
                Some((color, p3)) => Some((UserInfo { id, username: name, color }, p3)),
                None => None,
            },
            None => None,
        },
        None => None,
    }
}

fn read_opt_user(b: &[u8], pos: usize) -> (r: Option<(Option<UserInfo>, usize)>)
    requires
        pos <= b@.len(),
    ensures
        match r {
            Some(vp) => pos <= vp.1 <= b@.len() && parse_opt_user(b@.skip(pos as int)) == Some(
                (opt_user_view(vp.0), b@.skip(vp.1 as int)),
            ),
            None => parse_opt_user(b@.skip(pos as int)) is None,
        },
{
    match read_u8(b, pos) {
        Some((tag, p1)) => {
            if tag == 0 {
                Some((None, p1))
            } else if tag == 1 {
                match read_user(b, p1) {
                    Some((u, p2)) => Some((Some(u), p2)),
                    None => None,
                }
            } else {
                None
            }
        },
        None => None,
    }
}

fn read_entries(b: &[u8], pos: usize, n: u32) -> (r: Option<(Vec<(String, UserInfo)>, usize)>)
    requires
        pos <= b@.len(),
    ensures
        match r {
            Some(vp) => pos <= vp.1 <= b@.len() && parse_entries(b@.skip(pos as int), n as nat)
                == Some((entries_view(vp.0@), b@.skip(vp.1 as int))),
            None => parse_entries(b@.skip(pos as int), n as nat) is None,
        },
{
    let mut acc: Vec<(String, UserInfo)> = Vec::new();
    let mut cur: usize = pos;
    let mut i: u32 = 0;
    assert(entries_view(acc@) =~= Seq::<(Seq<char>, UserInfoView)>::empty());
    while i < n
        invariant
            pos <= cur <= b@.len(),
            i <= n,
            parse_entries(b@.skip(pos as int), n as nat) == (match parse_entries(
                b@.skip(cur as int),
                (n - i) as nat,
            ) {
                Some(tr) => Some((entries_view(acc@) + tr.0, tr.1)),
                None => None::<(Seq<(Seq<char>, UserInfoView)>, Seq<u8>)>,
            }),
        decreases n - i,
    {
        let s: String;
        let p1: usize;
        match read_str(b, cur) {
            Some(sp) => {
                s = sp.0;
                p1 = sp.1;
            },
            None => {
                return None;
            },
        }
        let u: UserInfo;
        let p2: usize;
        match read_user(b, p1) {
            Some(up) => {
                u = up.0;
                p2 = up.1;
            },
            None => {
                return None;
            },
        }
        proof {
            let ghost before = acc@;
            assert(entries_view(before.push((s, u))) =~= entries_view(before) + seq![(s@, u@)]);
        }
        let ghost old_acc = acc@;
        acc.push((s, u));
        proof {
            assert(entries_view(acc@) =~= entries_view(old_acc) + seq![(s@, u@)]);
            assert(forall|t: Seq<(Seq<char>, UserInfoView)>|
                entries_view(old_acc) + (seq![(s@, u@)] + t) == (entries_view(old_acc) + seq![
                    (s@, u@),
                ]) + t);
        }
        cur = p2;
        i = i + 1;
    }
    assert(parse_entries(b@.skip(cur as int), 0) == Some(
        (Seq::<(Seq<char>, UserInfoView)>::empty(), b@.skip(cur as int)),
    ));
    assert(entries_view(acc@) + Seq::<(Seq<char>, UserInfoView)>::empty() =~= entries_view(acc@));
    Some((acc, cur))
}

fn read_history(b: &[u8], pos: usize) -> (r: Option<(Vec<(String, UserInfo)>, usize)>)
    requires
        pos <= b@.len(),
    ensures
        match r {
            Some(vp) => pos <= vp.1 <= b@.len() && parse_history(b@.skip(pos as int)) == Some(
                (entries_view(vp.0@), b@.skip(vp.1 as int)),
            ),
            None => parse_history(b@.skip(pos as int)) is None,
        },
{
    match read_u32(b, pos) {
        Some((n, p1)) => read_entries(b, p1, n),
        None => None,
    }
}

#[verifier::spinoff_prover]
#[verifier::rlimit(60)]
fn read_payload(b: &[u8], pos: usize) -> (r: Option<(MessageType, usize)>)
    requires
        pos <= b@.len(),
    ensures
        match r {
            Some(vp) => pos <= vp.1 <= b@.len() && parse_payload(b@.skip(pos as int)) == Some(
                (vp.0@, b@.skip(vp.1 as int)),
            ),
            None => parse_payload(b@.skip(pos as int)) is None,
        },
{
    match read_u8(b, pos) {
        None => None,
        Some((tag, p1)) => {
            if tag == 0 {
                match read_str(b, p1) {
                    Some((s, p2)) => Some((MessageType::Text(s), p2)),
                    None => None,
                }
            } else if tag == 1 {
                match read_bytes(b, p1) {
                    Some((v, p2)) => Some((MessageType::Image(v), p2)),
                    None => None,
                }
            } else if tag == 2 {
                match read_str(b, p1) {
                    Some((name, p2)) => match read_bytes(b, p2) {
                        Some((v, p3)) => Some((MessageType::File(name, v), p3)),
                        None => None,
                    },
                    None => None,
                }
            } else if tag == 3 {
                Some((MessageType::UserConnect(), p1))
            } else if tag == 4 {
                Some((MessageType::UserDisconnect(), p1))
            } else if tag == 5 {
                match read_str(b, p1) {
                    Some((s, p2)) => Some((MessageType::UserNameChange(s), p2)),
                    None => None,
                }
            } else if tag == 6 {
                match read_color(b, p1) {
                    Some((c, p2)) => Some((MessageType::UserColorChange(c.0, c.1, c.2), p2)),
                    None => None,
                }
            } else if tag == 7 {
                match read_str(b, p1) {
                    Some((s, p2)) => Some((MessageType::RecoverableError(s), p2)),
                    None => None,
                }
            } else if tag == 8 {
                match read_str(b, p1) {
                    Some((s, p2)) => Some((MessageType::UnrecoverableError(s), p2)),
                    None => None,
                }
            } else if tag == 9 {
                match read_str(b, p1) {
                    Some((u, p2)) => match read_str(b, p2) {
                        Some((pw, p3)) => Some((MessageType::LoginRequest(u, pw), p3)),
                        None => None,
                    },
                    None => None,
                }
            } else if tag == 10 {
                match read_opt_user(b, p1) {
                    Some((u, p2)) => Some((MessageType::LoginResponse(u), p2)),
                    None => None,
                }
            } else if tag == 11 {
                match read_str(b, p1) {
                    Some((u, p2)) => match read_str(b, p2) {
                        Some((pw, p3)) => match read_color(b, p3) {
                            Some((c, p4)) => Some(
                                (MessageType::RegisterRequest(u, pw, c.0, c.1, c.2), p4),
                            ),
                            None => None,
                        },
                        None => None,
                    },
                    None => None,
                }
            } else if tag == 12 {
                match read_opt_user(b, p1) {
                    Some((u, p2)) => Some((MessageType::RegisterResponse(u), p2)),
                    None => None,
                }
            } else if tag == 13 {
                Some((MessageType::OldMessagesRequest(), p1))
            } else if tag == 14 {
                match read_history(b, p1) {
                    Some((es, p2)) => Some((MessageType::OldMessagesResponse(es), p2)),
                    None => None,
                }
            } else {
                None
            }
        },
    }
}

/// Decodes the payload bytes of one frame (everything after the 4-byte
/// length prefix) into an envelope.  Fails with `Malformed` exactly when the
/// bytes parse to no envelope.
pub fn decode_payload(b: &[u8]) -> (r: Result<Message, ProtocolError>)
    ensures
        match r {
            Ok(m) => parse_message(b@) == Some(m@),
            Err(e) => e == ProtocolError::Malformed && parse_message(b@) is None,
        },
{
    assert(b@.skip(0) =~= b@);
    match read_payload(b, 0) {
        Some((payload, p1)) => match read_user(b, p1) {
            Some((u, p2)) => match read_u64(b, p2) {
                Some((dt, p3)) => {
                    if p3 == b.len() {
                        assert(b@.skip(p3 as int).len() == 0);
                        Ok(Message { message: payload, user_info: u, datetime: dt })
                    } else {
                        assert(b@.skip(p3 as int).len() > 0);
                        Err(ProtocolError::Malformed)
                    }
                },
                None => Err(ProtocolError::Malformed),
            },
            None => Err(ProtocolError::Malformed),
        },
        None => Err(ProtocolError::Malformed),
    }
}

/// Decodes one whole frame: the 4-byte big-endian length prefix must name
/// exactly the bytes that follow, and those must encode one envelope.
pub fn decode(frame: &[u8]) -> (r: Result<Message, ProtocolError>)
    ensures
        match r {
            Ok(m) => spec_decode(frame@) == Some(m@),
            Err(e) => e == ProtocolError::Malformed && spec_decode(frame@) is None,
        },
{
    assert(frame@.skip(0) =~= frame@);
    match read_u32(frame, 0) {
        Some((n, p1)) => {
            if (frame.len() - p1) as u64 == n as u64 {
                let payload: &[u8] = vstd::slice::slice_subrange(frame, p1, frame.len());
                assert(payload@ =~= frame@.skip(p1 as int));
                match decode_payload(payload) {
                    Ok(m) => Ok(m),
                    Err(e) => Err(e),
                }
            } else {
                Err(ProtocolError::Malformed)
            }
        },
        None => Err(ProtocolError::Malformed),
    }
}

/// The payload length named by a 4-byte frame header, or nothing when fewer
/// than four bytes are given.
pub fn header_length(b: &[u8]) -> (r: Option<u32>)
    ensures
        r == (if b@.len() >= 4 {
            Some(be32(b@))
        } else {
            None::<u32>
        }),
{
    match read_u32(b, 0) {
        Some((n, _)) => {
            assert(b@.skip(0) =~= b@);
            Some(n)
        },
        None => {
            assert(b@.skip(0) =~= b@);
            None
        },
    }
}

} // verus!
