//! FrameCodec: the binary envelope carried inside socket frames.
//!
//! Each data frame's payload is one self-contained encoded envelope: a
//! `ClientMessage` outbound, a `ServerMessage` inbound.  Integers travel as
//! base-128 varints (seven value bits per byte, little-endian groups, high
//! bit as continuation), signed codes as zigzag-folded varints, byte runs
//! as a varint length followed by the bytes.  The encoders are verified to
//! produce exactly the specified byte sequence, the decoder to accept
//! exactly the canonical encodings, and decoding inverts encoding.

use vstd::prelude::*;
use vstd::arithmetic::div_mod::lemma_fundamental_div_mod;
use crate::protocol::{ClientBody, ClientMessage, ServerMessage, WsFrame};

verus! {

/// Canonical varint encoding of an unsigned value: little-endian seven-bit
/// groups, the high bit set on every group but the last.
pub open spec fn spec_varint(n: nat) -> Seq<u8>
    decreases n,
{
    if n < 0x80 {
        seq![n as u8]
    } else {
        seq![(n % 0x80 + 0x80) as u8] + spec_varint(n / 0x80)
    }
}

/// Appends the varint encoding of `n`.
pub fn encode_varint(n: u64, out: &mut Vec<u8>)
    ensures
        final(out)@ == old(out)@ + spec_varint(n as nat),
    decreases n,
{
    if n < 0x80 {
        out.push(n as u8);
        assert(out@ =~= old(out)@ + spec_varint(n as nat));
    } else {
        out.push((n % 0x80 + 0x80) as u8);
        let ghost mid = out@;
        encode_varint(n / 0x80, out);
        assert(out@ =~= old(out)@ + spec_varint(n as nat));
    }
}

/// `p` is an initial run of `s`.
pub open spec fn is_seq_prefix(p: Seq<u8>, s: Seq<u8>) -> bool {
    p.len() <= s.len() && s.subrange(0, p.len() as int) == p
}

/// A canonical varint is at least one byte, and its first byte determines
/// whether it continues.
pub proof fn lemma_varint_shape(n: nat)
    ensures
        spec_varint(n).len() >= 1,
        n < 0x80 ==> spec_varint(n) == seq![n as u8],
        n >= 0x80 ==> spec_varint(n)[0] == (n % 0x80 + 0x80) as u8 && spec_varint(n).drop_first()
            == spec_varint(n / 0x80),
{
    if n >= 0x80 {
        assert(spec_varint(n).drop_first() =~= spec_varint(n / 0x80));
    }
}

/// Two canonical varints that both head the same byte run encode the same
/// value: varints are prefix-free.
pub proof fn lemma_varint_prefix_unique(a: nat, b: nat, s: Seq<u8>)
    requires
        is_seq_prefix(spec_varint(a), s),
        is_seq_prefix(spec_varint(b), s),
    ensures
        a == b,
    decreases a,
{
    lemma_varint_shape(a);
    lemma_varint_shape(b);
    assert(spec_varint(a)[0] == s[0]);
    assert(spec_varint(b)[0] == s[0]);
    if a < 0x80 {
        assert(s[0] == a as u8);
        if b >= 0x80 {
            assert(s[0] == (b % 0x80 + 0x80) as u8);
            assert(false);
        }
    } else {
        if b < 0x80 {
            assert(false);
        } else {
            assert(a % 0x80 == b % 0x80);
            assert(is_seq_prefix(spec_varint(a / 0x80), s.drop_first())) by {
                assert(spec_varint(a).drop_first() =~= s.subrange(
                    0,
                    spec_varint(a).len() as int,
                ).drop_first());
                assert(s.subrange(0, spec_varint(a).len() as int).drop_first() =~= s.drop_first(
                ).subrange(0, spec_varint(a).len() - 1));
            }
            assert(is_seq_prefix(spec_varint(b / 0x80), s.drop_first())) by {
                assert(spec_varint(b).drop_first() =~= s.subrange(
                    0,
                    spec_varint(b).len() as int,
                ).drop_first());
                assert(s.subrange(0, spec_varint(b).len() as int).drop_first() =~= s.drop_first(
                ).subrange(0, spec_varint(b).len() - 1));
            }
            lemma_varint_prefix_unique(a / 0x80, b / 0x80, s.drop_first());
            lemma_fundamental_div_mod(a as int, 0x80);
            lemma_fundamental_div_mod(b as int, 0x80);
        }
    }
}

/// A decoded varint agrees with any varint that heads the same bytes.
proof fn lemma_varint_agree(data: Seq<u8>, pos: int, v_dec: nat, end: int, v0: nat)
    requires
        0 <= pos <= end <= data.len(),
        data.subrange(pos, end) == spec_varint(v_dec),
        is_seq_prefix(spec_varint(v0), data.skip(pos)),
    ensures
        v0 == v_dec,
        end == pos + spec_varint(v0).len(),
{
    assert(is_seq_prefix(spec_varint(v_dec), data.skip(pos))) by {
        assert(data.skip(pos).subrange(0, end - pos) =~= data.subrange(pos, end));
    }
    lemma_varint_prefix_unique(v0, v_dec, data.skip(pos));
}

/// Decodes the varint starting at `pos`: its value and the position just
/// past it.  Exactly the canonical encodings are accepted: on failure, no
/// 64-bit value's canonical varint heads the remaining bytes.
pub fn decode_varint(data: &Vec<u8>, pos: usize) -> (r: Option<(u64, usize)>)
    requires
        pos <= data@.len(),
    ensures
        match r {
            Option::Some((v, end)) => pos < end <= data@.len() && data@.subrange(
                pos as int,
                end as int,
            ) == spec_varint(v as nat),
            Option::None => forall|v: u64|
                !is_seq_prefix(spec_varint(v as nat), data@.skip(pos as int)),
        },
    decreases data@.len() - pos,
{
    if pos == data.len() {
        proof {
            assert forall|v: u64| !is_seq_prefix(
                spec_varint(v as nat),
                data@.skip(pos as int),
            ) by {
                lemma_varint_shape(v as nat);
            }
        }
        return Option::None;
    }
    let b = data[pos];
    if b < 0x80 {
        proof {
            assert(data@.subrange(pos as int, pos as int + 1) =~= seq![b]);
            assert(spec_varint(b as nat) == seq![b]);
        }
        return Option::Some((b as u64, pos + 1));
    }
    let inner = decode_varint(data, pos + 1);
    proof {
        if inner is None {
            assert forall|v: u64| !is_seq_prefix(
                spec_varint(v as nat),
                data@.skip(pos as int),
            ) by {
                if is_seq_prefix(spec_varint(v as nat), data@.skip(pos as int)) {
                    lemma_varint_shape(v as nat);
                    assert(data@.skip(pos as int)[0] == b);
                    assert(spec_varint(v as nat)[0] == data@.skip(pos as int)[0]) by {
                        assert(data@.skip(pos as int).subrange(
                            0,
                            spec_varint(v as nat).len() as int,
                        )[0] == data@.skip(pos as int)[0]);
                    }
                    assert(v >= 0x80);
                    lemma_prefix_step(spec_varint(v as nat), data@, pos as int);
                    assert(is_seq_prefix(
                        spec_varint((v / 0x80) as nat),
                        data@.skip(pos as int + 1),
                    ));
                    assert(false);
                }
            }
        }
    }
    match inner {
        Option::Some((rest, end)) => {
            if rest == 0 || rest >= 0x0200_0000_0000_0000 {
                // A continuation chain ending in zero groups is not the
                // canonical form of any value, and anything larger than 64
                // bits does not fit a correlation id.
                proof {
                    assert forall|v: u64| !is_seq_prefix(
                        spec_varint(v as nat),
                        data@.skip(pos as int),
                    ) by {
                        if is_seq_prefix(spec_varint(v as nat), data@.skip(pos as int)) {
                            lemma_varint_shape(v as nat);
                            assert(data@.skip(pos as int)[0] == b);
                            assert(spec_varint(v as nat)[0] == data@.skip(pos as int)[0]) by {
                                assert(data@.skip(pos as int).subrange(
                                    0,
                                    spec_varint(v as nat).len() as int,
                                )[0] == data@.skip(pos as int)[0]);
                            }
                            assert(v >= 0x80);
                            lemma_prefix_step(spec_varint(v as nat), data@, pos as int);
                            lemma_varint_agree(
                                data@,
                                pos as int + 1,
                                rest as nat,
                                end as int,
                                (v / 0x80) as nat,
                            );
                            assert(v as nat == 0x80 * ((v / 0x80) as nat) + ((v % 0x80) as nat))
                                by (nonlinear_arith);
                            assert(false);
                        }
                    }
                }
                return Option::None;
            }
            let v = rest * 0x80 + (b - 0x80) as u64;
            proof {
                assert((v as nat) % 0x80 == ((b - 0x80) as nat) && (v as nat) / 0x80 == (
                rest as nat)) by (nonlinear_arith)
                    requires
                        (v as nat) == (rest as nat) * 0x80 + ((b - 0x80) as nat),
                        ((b - 0x80) as nat) < 0x80,
                        (rest as nat) > 0,
                ;
                assert(data@.subrange(pos as int, end as int) =~= seq![b] + data@.subrange(
                    pos as int + 1,
                    end as int,
                ));
                assert(data@.subrange(pos as int, end as int) =~= spec_varint(v as nat));
            }
            Option::Some((v, end))
        }
        Option::None => Option::None,
    }
}

/// A byte-run field that heads `s` puts its length varint at the front of
/// `s` too.
proof fn lemma_bytes_field_head(bv: Seq<u8>, s: Seq<u8>)
    requires
        is_seq_prefix(spec_bytes_field(bv), s),
    ensures
        is_seq_prefix(spec_varint(bv.len()), s),
{
    lemma_varint_shape(bv.len());
    assert(s.subrange(0, spec_varint(bv.len()).len() as int) =~= s.subrange(
        0,
        spec_bytes_field(bv).len() as int,
    ).subrange(0, spec_varint(bv.len()).len() as int));
    assert(spec_bytes_field(bv).subrange(0, spec_varint(bv.len()).len() as int) =~= spec_varint(
        bv.len(),
    ));
}

/// Peeling the first byte off a prefix leaves a prefix one position on.
proof fn lemma_prefix_step(p: Seq<u8>, data: Seq<u8>, pos: int)
    requires
        0 <= pos < data.len(),
        p.len() >= 1,
        is_seq_prefix(p, data.skip(pos)),
    ensures
        is_seq_prefix(p.drop_first(), data.skip(pos + 1)),
{
    assert(p.drop_first() =~= data.skip(pos).subrange(0, p.len() as int).drop_first());
    assert(data.skip(pos).subrange(0, p.len() as int).drop_first() =~= data.skip(
        pos + 1,
    ).subrange(0, p.len() - 1));
}


/// Zigzag folding of a signed 32-bit value into an unsigned one:
/// non-negative values map to even numbers, negative ones to odd.
pub open spec fn spec_zigzag(n: int) -> nat {
    if n >= 0 {
        (2 * n) as nat
    } else {
        (-2 * n - 1) as nat
    }
}

/// Folds a signed code for the wire.
pub fn zigzag_encode(n: i32) -> (r: u64)
    ensures
        r as nat == spec_zigzag(n as int),
{
    if n >= 0 {
        (n as u64) * 2
    } else {
        let wide: i64 = n as i64;
        let magnitude: u64 = (-wide) as u64;
        magnitude * 2 - 1
    }
}

/// Unfolds a zigzag value back into the signed code; values outside the
/// 32-bit range are rejected.
pub fn zigzag_decode(z: u64) -> (r: Option<i32>)
    ensures
        match r {
            Option::Some(v) => spec_zigzag(v as int) == z as nat,
            Option::None => z > 0xFFFF_FFFF,
        },
{
    if z > 0xFFFF_FFFF {
        return Option::None;
    }
    if z % 2 == 0 {
        Option::Some((z / 2) as i32)
    } else {
        let magnitude: i64 = ((z as i64) + 1) / 2;
        Option::Some((-magnitude) as i32)
    }
}

/// Zigzag folding is injective and invertible on the whole `i32` range.
pub proof fn lemma_zigzag_round_trip(a: i32, b: i32)
    ensures
        spec_zigzag(a as int) <= 0xFFFF_FFFF,
        spec_zigzag(a as int) == spec_zigzag(b as int) ==> a == b,
{
}

/// Tag bytes of the envelope bodies.
pub const TAG_CONNECTION_OPEN: u8 = 1;
pub const TAG_CONNECTION_ERROR: u8 = 2;
pub const TAG_RPC_RESULT: u8 = 3;
pub const TAG_RPC_ERROR: u8 = 4;
pub const TAG_CONNECTION_INIT: u8 = 1;
pub const TAG_RPC_CALL: u8 = 2;

/// A byte run on the wire: its length as a varint, then the bytes.
pub open spec fn spec_bytes_field(v: Seq<u8>) -> Seq<u8> {
    spec_varint(v.len()) + v
}

/// Appends a length-prefixed byte run.
pub fn encode_bytes_field(v: &Vec<u8>, out: &mut Vec<u8>)
    ensures
        final(out)@ == old(out)@ + spec_bytes_field(v@),
{
    encode_varint(v.len() as u64, out);
    out.extend_from_slice(v.as_slice());
    assert(out@ =~= old(out)@ + spec_bytes_field(v@));
}

/// The encoded form of an outbound client envelope: correlation id,
/// transport sequence number, a body tag, then the body's fields.
pub open spec fn spec_encode_client(m: ClientMessage) -> Seq<u8> {
    spec_varint(m.id as nat) + spec_varint(m.seq as nat) + match m.body {
        ClientBody::ConnectionInit { token, client_version } => seq![TAG_CONNECTION_INIT]
            + spec_bytes_field(token@) + spec_bytes_field(client_version@),
        ClientBody::RpcCall { method, input } => seq![TAG_RPC_CALL] + spec_varint(method as nat)
            + spec_bytes_field(input@),
    }
}

/// Encodes one outbound client envelope.
pub fn encode_client_message(m: &ClientMessage) -> (r: Vec<u8>)
    ensures
        r@ == spec_encode_client(*m),
{
    let mut out: Vec<u8> = Vec::new();
    encode_varint(m.id, &mut out);
    encode_varint(m.seq as u64, &mut out);
    match &m.body {
        ClientBody::ConnectionInit { token, client_version } => {
            out.push(TAG_CONNECTION_INIT);
            encode_bytes_field(token, &mut out);
            encode_bytes_field(client_version, &mut out);
        }
        ClientBody::RpcCall { method, input } => {
            out.push(TAG_RPC_CALL);
            encode_varint(*method, &mut out);
            encode_bytes_field(input, &mut out);
        }
    }
    assert(out@ =~= spec_encode_client(*m));
    out
}

/// The encoded form of an inbound server envelope.  `Unknown` stands for
/// every body tag this client does not recognize; its canonical carrier is
/// a single unassigned tag byte.
pub open spec fn spec_encode_server(m: ServerMessage) -> Seq<u8> {
    match m {
        ServerMessage::ConnectionOpen => seq![TAG_CONNECTION_OPEN],
        ServerMessage::ConnectionError => seq![TAG_CONNECTION_ERROR],
        ServerMessage::RpcResult { req_msg_id, result } => seq![TAG_RPC_RESULT] + spec_varint(
            req_msg_id as nat,
        ) + match result {
            Option::Some(v) => seq![1u8] + spec_bytes_field(v@),
            Option::None => seq![0u8],
        },
        ServerMessage::RpcError { req_msg_id, code, error_code, message } => seq![TAG_RPC_ERROR]
            + spec_varint(req_msg_id as nat) + spec_varint(spec_zigzag(code as int))
            + spec_varint(spec_zigzag(error_code as int)) + spec_bytes_field(message@),
        ServerMessage::Unknown => seq![255u8],
    }
}

/// Encodes one server envelope; the inverse of [`decode_server_message`],
/// used by the test double standing in for the server.
pub fn encode_server_message(m: &ServerMessage) -> (r: Vec<u8>)
    ensures
        r@ == spec_encode_server(*m),
{
    let mut out: Vec<u8> = Vec::new();
    match m {
        ServerMessage::ConnectionOpen => {
            out.push(TAG_CONNECTION_OPEN);
        }
        ServerMessage::ConnectionError => {
            out.push(TAG_CONNECTION_ERROR);
        }
        ServerMessage::RpcResult { req_msg_id, result } => {
            out.push(TAG_RPC_RESULT);
            encode_varint(*req_msg_id, &mut out);
            match result {
                Option::Some(v) => {
                    out.push(1u8);
                    encode_bytes_field(v, &mut out);
                }
                Option::None => {
                    out.push(0u8);
                }
            }
        }
        ServerMessage::RpcError { req_msg_id, code, error_code, message } => {
            out.push(TAG_RPC_ERROR);
            encode_varint(*req_msg_id, &mut out);
            let z_code = zigzag_encode(*code);
            encode_varint(z_code, &mut out);
            let z_error = zigzag_encode(*error_code);
            encode_varint(z_error, &mut out);
            encode_bytes_field(message, &mut out);
        }
        ServerMessage::Unknown => {
            out.push(255u8);
        }
    }
    assert(out@ =~= spec_encode_server(*m));
    out
}

/// Reads a length-prefixed byte run starting at `pos`.  On failure, no
/// byte run's canonical field heads the remaining bytes.
fn decode_bytes_field(data: &Vec<u8>, pos: usize) -> (r: Option<(Vec<u8>, usize)>)
    requires
        pos <= data@.len(),
    ensures
        match r {
            Option::Some((v, end)) => pos < end <= data@.len() && data@.subrange(
                pos as int,
                end as int,
            ) == spec_bytes_field(v@),
            Option::None => forall|bv: Seq<u8>|
                !is_seq_prefix(#[trigger] spec_bytes_field(bv), data@.skip(pos as int)),
        },
{
    let n_data = data.len();
    let parsed_len = decode_varint(data, pos);
    proof {
        if parsed_len is None {
            assert forall|bv: Seq<u8>| !is_seq_prefix(
                #[trigger] spec_bytes_field(bv),
                data@.skip(pos as int),
            ) by {
                if is_seq_prefix(spec_bytes_field(bv), data@.skip(pos as int)) {
                    if bv.len() <= u64::MAX {
                        lemma_bytes_field_head(bv, data@.skip(pos as int));
                        let v64 = bv.len() as u64;
                        assert(spec_varint(v64 as nat) == spec_varint(bv.len()));
                        assert(false);
                    } else {
                        assert(spec_bytes_field(bv).len() >= bv.len());
                        assert(data@.skip(pos as int).len() <= n_data);
                        assert(false);
                    }
                }
            }
        }
    }
    match parsed_len {
        Option::Some((len, after_len)) => {
            if len > (data.len() - after_len) as u64 {
                proof {
                    assert forall|bv: Seq<u8>| !is_seq_prefix(
                        #[trigger] spec_bytes_field(bv),
                        data@.skip(pos as int),
                    ) by {
                        if is_seq_prefix(spec_bytes_field(bv), data@.skip(pos as int)) {
                            lemma_bytes_field_head(bv, data@.skip(pos as int));
                            lemma_varint_agree(
                                data@,
                                pos as int,
                                len as nat,
                                after_len as int,
                                bv.len(),
                            );
                            assert(spec_bytes_field(bv).len() <= data@.len() - pos);
                            assert(spec_bytes_field(bv).len() == spec_varint(bv.len()).len()
                                + bv.len());
                            assert(after_len as int == pos + spec_varint(bv.len()).len());
                            assert(bv.len() <= data@.len() - after_len);
                            assert(false);
                        }
                    }
                }
                return Option::None;
            }
            let len_usize = len as usize;
            let n_data = data.len();
            let mut v: Vec<u8> = Vec::new();
            let mut i: usize = 0;
            while i < len_usize
                invariant
                    i <= len_usize,
                    after_len + len_usize <= n_data,
                    n_data == data@.len(),
                    v@ =~= data@.subrange(after_len as int, after_len as int + i as int),
                decreases len_usize - i,
            {
                v.push(data[after_len + i]);
                assert(v@ =~= data@.subrange(after_len as int, after_len as int + i as int + 1));
                i = i + 1;
            }
            let end = after_len + len_usize;
            proof {
                assert(data@.subrange(pos as int, end as int) =~= data@.subrange(
                    pos as int,
                    after_len as int,
                ) + data@.subrange(after_len as int, end as int));
                assert(data@.subrange(pos as int, end as int) =~= spec_bytes_field(v@));
            }
            Option::Some((v, end))
        }
        Option::None => Option::None,
    }
}

/// The leading tag byte of an encoded server envelope.
pub open spec fn server_tag_of(m: ServerMessage) -> u8 {
    match m {
        ServerMessage::ConnectionOpen => TAG_CONNECTION_OPEN,
        ServerMessage::ConnectionError => TAG_CONNECTION_ERROR,
        ServerMessage::RpcResult { .. } => TAG_RPC_RESULT,
        ServerMessage::RpcError { .. } => TAG_RPC_ERROR,
        ServerMessage::Unknown => 255u8,
    }
}

/// Every encoded envelope starts with its body tag; the fixed-shape bodies
/// are exactly one byte long.
proof fn lemma_server_encode_shape(m: ServerMessage)
    ensures
        spec_encode_server(m).len() >= 1,
        spec_encode_server(m)[0] == server_tag_of(m),
        (m is ConnectionOpen || m is ConnectionError || m is Unknown) ==> spec_encode_server(
            m,
        ).len() == 1,
{
    match m {
        ServerMessage::RpcResult { req_msg_id, result } => {
            lemma_varint_shape(req_msg_id as nat);
            assert(spec_encode_server(m)[0] == TAG_RPC_RESULT);
        }
        ServerMessage::RpcError { req_msg_id, code, error_code, message } => {
            lemma_varint_shape(req_msg_id as nat);
            assert(spec_encode_server(m)[0] == TAG_RPC_ERROR);
        }
        _ => {}
    }
}

/// The body bytes that follow an `RpcResult` tag.
spec fn result_tail(req_msg_id: u64, result: Option<Vec<u8>>) -> Seq<u8> {
    spec_varint(req_msg_id as nat) + match result {
        Option::Some(v) => seq![1u8] + spec_bytes_field(v@),
        Option::None => seq![0u8],
    }
}

proof fn lemma_result_tail(req_msg_id: u64, result: Option<Vec<u8>>)
    ensures
        spec_encode_server(ServerMessage::RpcResult { req_msg_id, result }).skip(1)
            == result_tail(req_msg_id, result),
{
    assert(spec_encode_server(ServerMessage::RpcResult { req_msg_id, result }).skip(1)
        =~= result_tail(req_msg_id, result));
}

/// The body bytes that follow an `RpcError` tag.
spec fn error_tail(req_msg_id: u64, code: i32, error_code: i32, message: Vec<u8>) -> Seq<u8> {
    spec_varint(req_msg_id as nat) + spec_varint(spec_zigzag(code as int)) + spec_varint(
        spec_zigzag(error_code as int),
    ) + spec_bytes_field(message@)
}

proof fn lemma_error_tail(req_msg_id: u64, code: i32, error_code: i32, message: Vec<u8>)
    ensures
        spec_encode_server(
            ServerMessage::RpcError { req_msg_id, code, error_code, message },
        ).skip(1) == error_tail(req_msg_id, code, error_code, message),
{
    assert(spec_encode_server(ServerMessage::RpcError { req_msg_id, code, error_code, message })
        .skip(1) =~= error_tail(req_msg_id, code, error_code, message));
}

/// A concatenation's first run heads it.
proof fn lemma_head_prefix(a: Seq<u8>, b: Seq<u8>, s: Seq<u8>)
    requires
        s == a + b,
    ensures
        is_seq_prefix(a, s),
        s.skip(a.len() as int) == b,
{
    assert(s.subrange(0, a.len() as int) =~= a);
    assert(s.skip(a.len() as int) =~= b);
}

/// Decodes the body of an `RpcResult` envelope.
fn decode_rpc_result(data: &Vec<u8>) -> (r: Option<ServerMessage>)
    requires
        data@.len() >= 1,
        data@[0] == TAG_RPC_RESULT,
    ensures
        match r {
            Option::Some(m) => data@ == spec_encode_server(m),
            Option::None => forall|m: ServerMessage| data@ != spec_encode_server(m),
        },
{
    let n_data = data.len();
    let parsed_id = decode_varint(data, 1);
    proof {
        if parsed_id is None {
            assert forall|m: ServerMessage| data@ != spec_encode_server(m) by {
                if data@ == spec_encode_server(m) {
                    lemma_server_encode_shape(m);
                    match m {
                        ServerMessage::RpcResult { req_msg_id: id0, result: res0 } => {
                            lemma_result_tail(id0, res0);
                            assert(data@.skip(1) == result_tail(id0, res0));
                            lemma_head_prefix(
                                spec_varint(id0 as nat),
                                match res0 {
                                    Option::Some(v) => seq![1u8] + spec_bytes_field(v@),
                                    Option::None => seq![0u8],
                                },
                                data@.skip(1),
                            );
                            assert(false);
                        }
                        _ => {
                            assert(false);
                        }
                    }
                }
            }
        }
    }
    match parsed_id {
        Option::Some((req_msg_id, p1)) => {
            proof {
                rpc_result_position(data@, req_msg_id, p1 as int);
            }
            if p1 == n_data {
                proof {
                    assert forall|m: ServerMessage| data@ != spec_encode_server(m) by {
                        if data@ == spec_encode_server(m) {
                            rpc_result_mismatch(data@, req_msg_id, p1 as int, m);
                        }
                    }
                }
                return Option::None;
            }
            let presence = data[p1];
            if presence == 0 {
                if p1 + 1 == n_data {
                    let m = ServerMessage::RpcResult { req_msg_id, result: Option::None };
                    proof {
                        assert(data@ =~= data@.subrange(0, 1) + data@.subrange(1, p1 as int)
                            + data@.subrange(p1 as int, p1 as int + 1));
                        assert(data@ =~= spec_encode_server(m));
                    }
                    return Option::Some(m);
                }
                proof {
                    assert forall|m: ServerMessage| data@ != spec_encode_server(m) by {
                        if data@ == spec_encode_server(m) {
                            rpc_result_mismatch(data@, req_msg_id, p1 as int, m);
                        }
                    }
                }
                return Option::None;
            }
            if presence == 1 {
                let parsed_payload = decode_bytes_field(data, p1 + 1);
                match parsed_payload {
                    Option::Some((payload, end)) => {
                        if end == n_data {
                            let m = ServerMessage::RpcResult {
                                req_msg_id,
                                result: Option::Some(payload),
                            };
                            proof {
                                assert(data@ =~= data@.subrange(0, 1) + data@.subrange(
                                    1,
                                    p1 as int,
                                ) + data@.subrange(p1 as int, p1 as int + 1) + data@.subrange(
                                    p1 as int + 1,
                                    end as int,
                                ));
                                assert(data@ =~= spec_encode_server(m));
                            }
                            return Option::Some(m);
                        }
                        proof {
                            assert forall|m: ServerMessage| data@ != spec_encode_server(m) by {
                                if data@ == spec_encode_server(m) {
                                    rpc_result_trailing(
                                        data@,
                                        req_msg_id,
                                        p1 as int,
                                        payload@,
                                        end as int,
                                        m,
                                    );
                                }
                            }
                        }
                        Option::None
                    }
                    Option::None => {
                        proof {
                            assert forall|m: ServerMessage| data@ != spec_encode_server(m) by {
                                if data@ == spec_encode_server(m) {
                                    rpc_result_mismatch(data@, req_msg_id, p1 as int, m);
                                }
                            }
                        }
                        Option::None
                    }
                }
            } else {
                proof {
                    assert forall|m: ServerMessage| data@ != spec_encode_server(m) by {
                        if data@ == spec_encode_server(m) {
                            rpc_result_mismatch(data@, req_msg_id, p1 as int, m);
                        }
                    }
                }
                Option::None
            }
        }
        Option::None => Option::None,
    }
}

/// After the id varint of an `RpcResult` envelope, the rest of the bytes
/// are the presence byte and the optional payload field of whatever
/// message the data encodes.
proof fn rpc_result_position(data: Seq<u8>, req_msg_id: u64, p1: int)
    requires
        data.len() >= 1,
        data[0] == TAG_RPC_RESULT,
        1 <= p1 <= data.len(),
        data.subrange(1, p1) == spec_varint(req_msg_id as nat),
    ensures
        forall|m: ServerMessage|
            data == #[trigger] spec_encode_server(m) ==> (m matches ServerMessage::RpcResult {
                req_msg_id: id0,
                result: res0,
            } && id0 == req_msg_id && data.skip(p1) == (match res0 {
                Option::Some(v) => seq![1u8] + spec_bytes_field(v@),
                Option::None => seq![0u8],
            })),
{
    assert forall|m: ServerMessage| data == #[trigger] spec_encode_server(m)
        implies (m matches ServerMessage::RpcResult { req_msg_id: id0, result: res0 } && id0
            == req_msg_id && data.skip(p1) == (match res0 {
            Option::Some(v) => seq![1u8] + spec_bytes_field(v@),
            Option::None => seq![0u8],
        })) by {
        if data == spec_encode_server(m) {
            lemma_server_encode_shape(m);
            match m {
                ServerMessage::RpcResult { req_msg_id: id0, result: res0 } => {
                    lemma_result_tail(id0, res0);
                    let rest = match res0 {
                        Option::Some(v) => seq![1u8] + spec_bytes_field(v@),
                        Option::None => seq![0u8],
                    };
                    lemma_head_prefix(spec_varint(id0 as nat), rest, data.skip(1));
                    lemma_varint_agree(data, 1, req_msg_id as nat, p1, id0 as nat);
                    assert(data.skip(p1) =~= data.skip(1).skip(p1 - 1));
                    assert(data.skip(1).skip(spec_varint(id0 as nat).len() as int) == rest);
                }
                _ => {
                    assert(false);
                }
            }
        }
    }
}

/// No envelope matches a truncated or malformed `RpcResult` body.
proof fn rpc_result_mismatch(data: Seq<u8>, req_msg_id: u64, p1: int, m: ServerMessage)
    requires
        data.len() >= 1,
        data[0] == TAG_RPC_RESULT,
        1 <= p1 <= data.len(),
        data.subrange(1, p1) == spec_varint(req_msg_id as nat),
        p1 == data.len() || (data[p1] == 0 && p1 + 1 != data.len()) || (data[p1] == 1
            && forall|bv: Seq<u8>| !is_seq_prefix(#[trigger] spec_bytes_field(bv), data.skip(p1 + 1)))
            || (data[p1] != 0 && data[p1] != 1),
    ensures
        data != spec_encode_server(m),
{
    if data != spec_encode_server(m) {
        return;
    }
    rpc_result_position(data, req_msg_id, p1);
    match m {
        ServerMessage::RpcResult { req_msg_id: id0, result: res0 } => {
            let rest = match res0 {
                Option::Some(v) => seq![1u8] + spec_bytes_field(v@),
                Option::None => seq![0u8],
            };
            assert(data.skip(p1) == rest);
            assert(rest.len() >= 1);
            assert(p1 < data.len());
            assert(data[p1] == rest[0]);
            match res0 {
                Option::Some(v) => {
                    assert(data[p1] == 1);
                    lemma_head_prefix(seq![1u8], spec_bytes_field(v@), rest);
                    assert(data.skip(p1 + 1) =~= rest.skip(1));
                    assert(is_seq_prefix(spec_bytes_field(v@), data.skip(p1 + 1))) by {
                        assert(data.skip(p1 + 1).subrange(
                            0,
                            spec_bytes_field(v@).len() as int,
                        ) =~= spec_bytes_field(v@));
                    }
                    assert(false);
                }
                Option::None => {
                    assert(data[p1] == 0);
                    assert(rest.len() == 1);
                    assert(p1 + 1 == data.len());
                    assert(false);
                }
            }
        }
        _ => {
            assert(false);
        }
    }
}

/// No envelope matches an `RpcResult` body with trailing bytes.
proof fn rpc_result_trailing(
    data: Seq<u8>,
    req_msg_id: u64,
    p1: int,
    payload: Seq<u8>,
    end: int,
    m: ServerMessage,
)
    requires
        data.len() >= 1,
        data[0] == TAG_RPC_RESULT,
        1 <= p1 < data.len(),
        data.subrange(1, p1) == spec_varint(req_msg_id as nat),
        data[p1] == 1,
        p1 + 1 <= end <= data.len(),
        data.subrange(p1 + 1, end) == spec_bytes_field(payload),
        end != data.len(),
    ensures
        data != spec_encode_server(m),
{
    if data != spec_encode_server(m) {
        return;
    }
    rpc_result_position(data, req_msg_id, p1);
    match m {
        ServerMessage::RpcResult { req_msg_id: id0, result: res0 } => {
            match res0 {
                Option::Some(v) => {
                    let rest = seq![1u8] + spec_bytes_field(v@);
                    assert(data.skip(p1) == rest);
                    lemma_head_prefix(seq![1u8], spec_bytes_field(v@), rest);
                    assert(data.skip(p1 + 1) =~= rest.skip(1));
                    assert(data.skip(p1 + 1) == spec_bytes_field(v@));
                    assert(is_seq_prefix(spec_bytes_field(payload), data.skip(p1 + 1))) by {
                        assert(data.skip(p1 + 1).subrange(0, end - (p1 + 1)) =~= data.subrange(
                            p1 + 1,
                            end,
                        ));
                    }
                    lemma_bytes_field_head(payload, data.skip(p1 + 1));
                    assert(is_seq_prefix(spec_bytes_field(v@), data.skip(p1 + 1))) by {
                        assert(data.skip(p1 + 1).subrange(
                            0,
                            spec_bytes_field(v@).len() as int,
                        ) =~= spec_bytes_field(v@));
                    }
                    lemma_bytes_field_head(v@, data.skip(p1 + 1));
                    lemma_varint_prefix_unique(payload.len(), v@.len(), data.skip(p1 + 1));
                    assert(spec_bytes_field(payload).len() == spec_bytes_field(v@).len());
                    assert(end - (p1 + 1) == spec_bytes_field(payload).len());
                    assert(data.skip(p1 + 1).len() == spec_bytes_field(v@).len());
                    assert(false);
                }
                Option::None => {
                    assert(data.skip(p1) == seq![0u8]);
                    assert(data[p1] == 0);
                    assert(false);
                }
            }
        }
        _ => {
            lemma_server_encode_shape(m);
            assert(false);
        }
    }
}

/// Decodes the body of an `RpcError` envelope.
fn decode_rpc_error(data: &Vec<u8>) -> (r: Option<ServerMessage>)
    requires
        data@.len() >= 1,
        data@[0] == TAG_RPC_ERROR,
    ensures
        match r {
            Option::Some(m) => data@ == spec_encode_server(m),
            Option::None => forall|m: ServerMessage| data@ != spec_encode_server(m),
        },
{
    let n_data = data.len();
    let parsed_id = decode_varint(data, 1);
    let (req_msg_id, p1) = match parsed_id {
        Option::Some(pair) => pair,
        Option::None => {
            proof {
                assert forall|m: ServerMessage| data@ != spec_encode_server(m) by {
                    rpc_error_stuck_id(data@, m);
                }
            }
            return Option::None;
        }
    };
    let parsed_code = decode_varint(data, p1);
    let (z_code, p2) = match parsed_code {
        Option::Some(pair) => pair,
        Option::None => {
            proof {
                assert forall|m: ServerMessage| data@ != spec_encode_server(m) by {
                    rpc_error_stuck_code(data@, req_msg_id, p1 as int, m);
                }
            }
            return Option::None;
        }
    };
    let parsed_error = decode_varint(data, p2);
    let (z_error, p3) = match parsed_error {
        Option::Some(pair) => pair,
        Option::None => {
            proof {
                assert forall|m: ServerMessage| data@ != spec_encode_server(m) by {
                    rpc_error_stuck_error(data@, req_msg_id, p1 as int, z_code, p2 as int, m);
                }
            }
            return Option::None;
        }
    };
    let code = match zigzag_decode(z_code) {
        Option::Some(c) => c,
        Option::None => {
            proof {
                assert forall|m: ServerMessage| data@ != spec_encode_server(m) by {
                    rpc_error_code_range(data@, req_msg_id, p1 as int, z_code, p2 as int, m);
                }
            }
            return Option::None;
        }
    };
    let error_code = match zigzag_decode(z_error) {
        Option::Some(c) => c,
        Option::None => {
            proof {
                assert forall|m: ServerMessage| data@ != spec_encode_server(m) by {
                    rpc_error_error_range(
                        data@,
                        req_msg_id,
                        p1 as int,
                        z_code,
                        p2 as int,
                        z_error,
                        p3 as int,
                        m,
                    );
                }
            }
            return Option::None;
        }
    };
    let parsed_message = decode_bytes_field(data, p3);
    match parsed_message {
        Option::Some((message, end)) => {
            if end == n_data {
                let m = ServerMessage::RpcError { req_msg_id, code, error_code, message };
                proof {
                    assert(data@ =~= data@.subrange(0, 1) + data@.subrange(1, p1 as int)
                        + data@.subrange(p1 as int, p2 as int) + data@.subrange(
                        p2 as int,
                        p3 as int,
                    ) + data@.subrange(p3 as int, end as int));
                    assert(data@ =~= spec_encode_server(m));
                }
                return Option::Some(m);
            }
            proof {
                assert forall|m: ServerMessage| data@ != spec_encode_server(m) by {
                    rpc_error_third(
                        data@,
                        req_msg_id,
                        p1 as int,
                        z_code,
                        p2 as int,
                        z_error,
                        p3 as int,
                        message@,
                        end as int,
                        m,
                    );
                }
            }
            Option::None
        }
        Option::None => {
            proof {
                assert forall|m: ServerMessage| data@ != spec_encode_server(m) by {
                    rpc_error_stuck_msg(
                        data@,
                        req_msg_id,
                        p1 as int,
                        z_code,
                        p2 as int,
                        z_error,
                        p3 as int,
                        m,
                    );
                }
            }
            Option::None
        }
    }
}

/// No envelope matches when the id varint itself is malformed.
proof fn rpc_error_stuck_id(data: Seq<u8>, m: ServerMessage)
    requires
        data.len() >= 1,
        data[0] == TAG_RPC_ERROR,
        forall|v: u64| !is_seq_prefix(spec_varint(v as nat), data.skip(1)),
    ensures
        data != spec_encode_server(m),
{
    if data != spec_encode_server(m) {
        return;
    }
    lemma_server_encode_shape(m);
    match m {
        ServerMessage::RpcError { req_msg_id: id0, code: c0, error_code: e0, message: msg0 } => {
            lemma_error_tail(id0, c0, e0, msg0);
            let rest = spec_varint(spec_zigzag(c0 as int)) + spec_varint(spec_zigzag(e0 as int))
                + spec_bytes_field(msg0@);
            assert(data.skip(1) == error_tail(id0, c0, e0, msg0));
            assert(error_tail(id0, c0, e0, msg0) =~= spec_varint(id0 as nat) + rest);
            lemma_head_prefix(spec_varint(id0 as nat), rest, data.skip(1));
            assert(false);
        }
        _ => {
            assert(false);
        }
    }
}

/// After the id varint of an `RpcError` envelope: the message is an
/// `RpcError` with that id, the first zigzag varint heads the remainder,
/// and its value is in the 32-bit range.
proof fn rpc_error_positions(data: Seq<u8>, req_msg_id: u64, p1: int, m: ServerMessage)
    requires
        data.len() >= 1,
        data[0] == TAG_RPC_ERROR,
        1 <= p1 <= data.len(),
        data.subrange(1, p1) == spec_varint(req_msg_id as nat),
        data == spec_encode_server(m),
    ensures
        m matches ServerMessage::RpcError { req_msg_id: id0, code: c0, error_code: e0, message: msg0 }
            && id0 == req_msg_id && data.skip(p1) == spec_varint(spec_zigzag(c0 as int)) + (
        spec_varint(spec_zigzag(e0 as int)) + spec_bytes_field(msg0@)) && is_seq_prefix(
            spec_varint(spec_zigzag(c0 as int)),
            data.skip(p1),
        ) && spec_zigzag(c0 as int) <= 0xFFFF_FFFF,
{
    lemma_server_encode_shape(m);
    match m {
        ServerMessage::RpcError { req_msg_id: id0, code: c0, error_code: e0, message: msg0 } => {
            lemma_error_tail(id0, c0, e0, msg0);
            let after_id = spec_varint(spec_zigzag(c0 as int)) + (spec_varint(
                spec_zigzag(e0 as int),
            ) + spec_bytes_field(msg0@));
            assert(data.skip(1) == error_tail(id0, c0, e0, msg0));
            assert(error_tail(id0, c0, e0, msg0) =~= spec_varint(id0 as nat) + after_id);
            lemma_head_prefix(spec_varint(id0 as nat), after_id, data.skip(1));
            lemma_varint_agree(data, 1, req_msg_id as nat, p1, id0 as nat);
            assert(data.skip(p1) =~= data.skip(1).skip(p1 - 1));
            assert(data.skip(1).skip(spec_varint(id0 as nat).len() as int) == after_id);
            lemma_head_prefix(
                spec_varint(spec_zigzag(c0 as int)),
                spec_varint(spec_zigzag(e0 as int)) + spec_bytes_field(msg0@),
                data.skip(p1),
            );
            lemma_zigzag_round_trip(c0, c0);
        }
        _ => {
            assert(false);
        }
    }
}

/// No envelope matches when the first code varint is malformed.
proof fn rpc_error_stuck_code(data: Seq<u8>, req_msg_id: u64, p1: int, m: ServerMessage)
    requires
        data.len() >= 1,
        data[0] == TAG_RPC_ERROR,
        1 <= p1 <= data.len(),
        data.subrange(1, p1) == spec_varint(req_msg_id as nat),
        forall|v: u64| !is_seq_prefix(spec_varint(v as nat), data.skip(p1)),
    ensures
        data != spec_encode_server(m),
{
    if data != spec_encode_server(m) {
        return;
    }
    rpc_error_positions(data, req_msg_id, p1, m);
    match m {
        ServerMessage::RpcError { code: c0, .. } => {
            let z64 = spec_zigzag(c0 as int) as u64;
            assert(spec_varint(z64 as nat) == spec_varint(spec_zigzag(c0 as int)));
            assert(false);
        }
        _ => {
            assert(false);
        }
    }
}

/// After the first zigzag varint: it carries the transport code, and the
/// second zigzag varint heads the remainder.
proof fn rpc_error_second(
    data: Seq<u8>,
    req_msg_id: u64,
    p1: int,
    z_code: u64,
    p2: int,
    m: ServerMessage,
)
    requires
        data.len() >= 1,
        data[0] == TAG_RPC_ERROR,
        1 <= p1 <= p2 <= data.len(),
        data.subrange(1, p1) == spec_varint(req_msg_id as nat),
        data.subrange(p1, p2) == spec_varint(z_code as nat),
        data == spec_encode_server(m),
    ensures
        m matches ServerMessage::RpcError { code: c0, error_code: e0, message: msg0, .. }
            && z_code as nat == spec_zigzag(c0 as int) && data.skip(p2) == spec_varint(
            spec_zigzag(e0 as int),
        ) + spec_bytes_field(msg0@) && is_seq_prefix(
            spec_varint(spec_zigzag(e0 as int)),
            data.skip(p2),
        ) && spec_zigzag(e0 as int) <= 0xFFFF_FFFF,
{
    rpc_error_positions(data, req_msg_id, p1, m);
    match m {
        ServerMessage::RpcError { req_msg_id: id0, code: c0, error_code: e0, message: msg0 } => {
            let after_code = spec_varint(spec_zigzag(e0 as int)) + spec_bytes_field(msg0@);
            lemma_varint_agree(data, p1, z_code as nat, p2, spec_zigzag(c0 as int));
            assert(data.skip(p2) =~= data.skip(p1).skip(p2 - p1));
            assert(data.skip(p1).skip(spec_varint(spec_zigzag(c0 as int)).len() as int)
                == after_code) by {
                lemma_head_prefix(
                    spec_varint(spec_zigzag(c0 as int)),
                    after_code,
                    data.skip(p1),
                );
            }
            lemma_head_prefix(
                spec_varint(spec_zigzag(e0 as int)),
                spec_bytes_field(msg0@),
                after_code,
            );
            lemma_zigzag_round_trip(e0, e0);
        }
        _ => {
            assert(false);
        }
    }
}

/// No envelope matches when the first code is out of the 32-bit range.
proof fn rpc_error_code_range(
    data: Seq<u8>,
    req_msg_id: u64,
    p1: int,
    z_code: u64,
    p2: int,
    m: ServerMessage,
)
    requires
        data.len() >= 1,
        data[0] == TAG_RPC_ERROR,
        1 <= p1 <= p2 <= data.len(),
        data.subrange(1, p1) == spec_varint(req_msg_id as nat),
        data.subrange(p1, p2) == spec_varint(z_code as nat),
        z_code > 0xFFFF_FFFF,
    ensures
        data != spec_encode_server(m),
{
    if data != spec_encode_server(m) {
        return;
    }
    rpc_error_second(data, req_msg_id, p1, z_code, p2, m);
}

/// No envelope matches when the second code varint is malformed.
proof fn rpc_error_stuck_error(
    data: Seq<u8>,
    req_msg_id: u64,
    p1: int,
    z_code: u64,
    p2: int,
    m: ServerMessage,
)
    requires
        data.len() >= 1,
        data[0] == TAG_RPC_ERROR,
        1 <= p1 <= p2 <= data.len(),
        data.subrange(1, p1) == spec_varint(req_msg_id as nat),
        data.subrange(p1, p2) == spec_varint(z_code as nat),
        forall|v: u64| !is_seq_prefix(spec_varint(v as nat), data.skip(p2)),
    ensures
        data != spec_encode_server(m),
{
    if data != spec_encode_server(m) {
        return;
    }
    rpc_error_second(data, req_msg_id, p1, z_code, p2, m);
    match m {
        ServerMessage::RpcError { error_code: e0, .. } => {
            let z64 = spec_zigzag(e0 as int) as u64;
            assert(spec_varint(z64 as nat) == spec_varint(spec_zigzag(e0 as int)));
            assert(false);
        }
        _ => {
            assert(false);
        }
    }
}

/// No envelope matches when the second code is out of the 32-bit range.
proof fn rpc_error_error_range(
    data: Seq<u8>,
    req_msg_id: u64,
    p1: int,
    z_code: u64,
    p2: int,
    z_error: u64,
    p3: int,
    m: ServerMessage,
)
    requires
        data.len() >= 1,
        data[0] == TAG_RPC_ERROR,
        1 <= p1 <= p2 <= p3 <= data.len(),
        data.subrange(1, p1) == spec_varint(req_msg_id as nat),
        data.subrange(p1, p2) == spec_varint(z_code as nat),
        data.subrange(p2, p3) == spec_varint(z_error as nat),
        z_error > 0xFFFF_FFFF,
    ensures
        data != spec_encode_server(m),
{
    if data != spec_encode_server(m) {
        return;
    }
    rpc_error_second(data, req_msg_id, p1, z_code, p2, m);
    match m {
        ServerMessage::RpcError { error_code: e0, .. } => {
            lemma_varint_agree(data, p2, z_error as nat, p3, spec_zigzag(e0 as int));
            assert(false);
        }
        _ => {
            assert(false);
        }
    }
}

/// The message field of an `RpcError` envelope fills everything after the
/// second code varint.
proof fn rpc_error_msg_rest(
    data: Seq<u8>,
    req_msg_id: u64,
    p1: int,
    z_code: u64,
    p2: int,
    z_error: u64,
    p3: int,
    m: ServerMessage,
)
    requires
        data.len() >= 1,
        data[0] == TAG_RPC_ERROR,
        1 <= p1 <= p2 <= p3 <= data.len(),
        data.subrange(1, p1) == spec_varint(req_msg_id as nat),
        data.subrange(p1, p2) == spec_varint(z_code as nat),
        data.subrange(p2, p3) == spec_varint(z_error as nat),
        data == spec_encode_server(m),
    ensures
        m matches ServerMessage::RpcError { message: msg0, .. } && data.skip(p3)
            == spec_bytes_field(msg0@) && is_seq_prefix(spec_bytes_field(msg0@), data.skip(p3)),
{
    rpc_error_second(data, req_msg_id, p1, z_code, p2, m);
    match m {
        ServerMessage::RpcError { error_code: e0, message: msg0, .. } => {
            lemma_varint_agree(data, p2, z_error as nat, p3, spec_zigzag(e0 as int));
            assert(data.skip(p3) =~= data.skip(p2).skip(p3 - p2));
            assert(data.skip(p2).skip(spec_varint(spec_zigzag(e0 as int)).len() as int)
                == spec_bytes_field(msg0@)) by {
                lemma_head_prefix(
                    spec_varint(spec_zigzag(e0 as int)),
                    spec_bytes_field(msg0@),
                    data.skip(p2),
                );
            }
            assert(is_seq_prefix(spec_bytes_field(msg0@), data.skip(p3))) by {
                assert(data.skip(p3).subrange(0, spec_bytes_field(msg0@).len() as int)
                    =~= spec_bytes_field(msg0@));
            }
        }
        _ => {
            assert(false);
        }
    }
}

/// No envelope matches when the message field is malformed.
proof fn rpc_error_stuck_msg(
    data: Seq<u8>,
    req_msg_id: u64,
    p1: int,
    z_code: u64,
    p2: int,
    z_error: u64,
    p3: int,
    m: ServerMessage,
)
    requires
        data.len() >= 1,
        data[0] == TAG_RPC_ERROR,
        1 <= p1 <= p2 <= p3 <= data.len(),
        data.subrange(1, p1) == spec_varint(req_msg_id as nat),
        data.subrange(p1, p2) == spec_varint(z_code as nat),
        data.subrange(p2, p3) == spec_varint(z_error as nat),
        forall|bv: Seq<u8>| !is_seq_prefix(#[trigger] spec_bytes_field(bv), data.skip(p3)),
    ensures
        data != spec_encode_server(m),
{
    if data != spec_encode_server(m) {
        return;
    }
    rpc_error_msg_rest(data, req_msg_id, p1, z_code, p2, z_error, p3, m);
    match m {
        ServerMessage::RpcError { message: msg0, .. } => {
            assert(false);
        }
        _ => {
            assert(false);
        }
    }
}

/// No envelope matches an `RpcError` body with trailing bytes.
proof fn rpc_error_third(
    data: Seq<u8>,
    req_msg_id: u64,
    p1: int,
    z_code: u64,
    p2: int,
    z_error: u64,
    p3: int,
    message: Seq<u8>,
    end: int,
    m: ServerMessage,
)
    requires
        data.len() >= 1,
        data[0] == TAG_RPC_ERROR,
        1 <= p1 <= p2 <= p3 <= end <= data.len(),
        data.subrange(1, p1) == spec_varint(req_msg_id as nat),
        data.subrange(p1, p2) == spec_varint(z_code as nat),
        data.subrange(p2, p3) == spec_varint(z_error as nat),
        data.subrange(p3, end) == spec_bytes_field(message),
        end != data.len(),
    ensures
        data != spec_encode_server(m),
{
    if data != spec_encode_server(m) {
        return;
    }
    rpc_error_msg_rest(data, req_msg_id, p1, z_code, p2, z_error, p3, m);
    match m {
        ServerMessage::RpcError { message: msg0, .. } => {
            assert(is_seq_prefix(spec_bytes_field(message), data.skip(p3))) by {
                assert(data.skip(p3).subrange(0, end - p3) =~= data.subrange(p3, end));
            }
            lemma_bytes_field_head(message, data.skip(p3));
            lemma_bytes_field_head(msg0@, data.skip(p3));
            lemma_varint_prefix_unique(message.len(), msg0@.len(), data.skip(p3));
            assert(end - p3 == spec_bytes_field(message).len());
            assert(data.skip(p3).len() == spec_bytes_field(msg0@).len());
            assert(false);
        }
        _ => {
            lemma_server_encode_shape(m);
            assert(false);
        }
    }
}

/// Decodes one complete inbound server envelope.  The whole payload must
/// be one canonical envelope: anything else — a malformed varint, a
/// truncated field, trailing bytes — is a decode failure, and on failure
/// no message encodes to the payload.  An unassigned body tag decodes to
/// `Unknown`, which dispatchers discard.
pub fn decode_server_message(data: &Vec<u8>) -> (r: Option<ServerMessage>)
    ensures
        match r {
            Option::Some(m) => match m {
                ServerMessage::Unknown => data@.len() == 1 && data@[0] != TAG_CONNECTION_OPEN
                    && data@[0] != TAG_CONNECTION_ERROR && data@[0] != TAG_RPC_RESULT && data@[0]
                    != TAG_RPC_ERROR,
                _ => data@ == spec_encode_server(m),
            },
            Option::None => forall|m: ServerMessage| data@ != spec_encode_server(m),
        },
{
    if data.len() == 0 {
        proof {
            assert forall|m: ServerMessage| data@ != spec_encode_server(m) by {
                lemma_server_encode_shape(m);
            }
        }
        return Option::None;
    }
    let tag = data[0];
    if tag == TAG_CONNECTION_OPEN {
        if data.len() == 1 {
            proof {
                assert(data@ =~= seq![TAG_CONNECTION_OPEN]);
            }
            return Option::Some(ServerMessage::ConnectionOpen);
        }
        proof {
            assert forall|m: ServerMessage| data@ != spec_encode_server(m) by {
                if data@ == spec_encode_server(m) {
                    lemma_server_encode_shape(m);
                    one_byte_tag_mismatch(data@, m);
                }
            }
        }
        return Option::None;
    }
    if tag == TAG_CONNECTION_ERROR {
        if data.len() == 1 {
            proof {
                assert(data@ =~= seq![TAG_CONNECTION_ERROR]);
            }
            return Option::Some(ServerMessage::ConnectionError);
        }
        proof {
            assert forall|m: ServerMessage| data@ != spec_encode_server(m) by {
                if data@ == spec_encode_server(m) {
                    lemma_server_encode_shape(m);
                    one_byte_tag_mismatch(data@, m);
                }
            }
        }
        return Option::None;
    }
    if tag == TAG_RPC_RESULT {
        return decode_rpc_result(data);
    }
    if tag == TAG_RPC_ERROR {
        decode_rpc_error(data)
    } else {
        if data.len() == 1 {
            proof {
                assert(data@ =~= seq![data@[0] as u8]);
            }
            return Option::Some(ServerMessage::Unknown);
        }
        proof {
            assert forall|m: ServerMessage| data@ != spec_encode_server(m) by {
                if data@ == spec_encode_server(m) {
                    lemma_server_encode_shape(m);
                    one_byte_tag_mismatch(data@, m);
                }
            }
        }
        Option::None
    }
}

/// A multi-byte payload never encodes a one-byte body, and the four
/// assigned tags pin the variant.
proof fn one_byte_tag_mismatch(data: Seq<u8>, m: ServerMessage)
    requires
        data.len() >= 2,
        data[0] != TAG_RPC_RESULT,
        data[0] != TAG_RPC_ERROR,
    ensures
        data != spec_encode_server(m),
{
    if data != spec_encode_server(m) {
        return;
    }
    lemma_server_encode_shape(m);
    match m {
        ServerMessage::RpcResult { .. } => {
            assert(false);
        }
        ServerMessage::RpcError { .. } => {
            assert(false);
        }
        _ => {
            assert(spec_encode_server(m).len() == 1);
            assert(false);
        }
    }
}

/// What the transport should do with one raw socket frame: hand a decoded
/// envelope to the dispatchers, skip a control frame, or fail the
/// connection.  Text payloads and keep-alives are control-plane only; a
/// close and a malformed data payload are connection failures.
#[derive(Debug, PartialEq)]
pub enum FrameAction {
    /// A complete decoded envelope for the dispatchers.
    Deliver(ServerMessage),
    /// A control frame with no protocol meaning; read the next frame.
    Skip,
    /// A data frame whose payload is not a well-formed envelope: an
    /// envelope decode failure, terminal for the connection.
    FailDecode,
    /// The peer closed the stream: a connection failure.
    FailConnection,
}

/// Classifies one raw socket frame per the wire contract: a binary frame
/// either decodes to exactly one envelope (an unassigned one-byte tag
/// comes through as `Unknown`) or fails the connection as a decode
/// failure; a close fails it at the transport level; text payloads and
/// keep-alives are skipped.
pub fn classify_frame(frame: &WsFrame) -> (r: FrameAction)
    ensures
        match *frame {
            WsFrame::Binary(ref data) => match r {
                FrameAction::Deliver(m) => match m {
                    ServerMessage::Unknown => data@.len() == 1 && data@[0]
                        != TAG_CONNECTION_OPEN && data@[0] != TAG_CONNECTION_ERROR && data@[0]
                        != TAG_RPC_RESULT && data@[0] != TAG_RPC_ERROR,
                    _ => data@ == spec_encode_server(m),
                },
                FrameAction::FailDecode => forall|m: ServerMessage|
                    data@ != spec_encode_server(m),
                FrameAction::Skip => false,
                FrameAction::FailConnection => false,
            },
            WsFrame::Close => r is FailConnection,
            _ => r is Skip,
        },
{
    match frame {
        WsFrame::Binary(data) => match decode_server_message(data) {
            Option::Some(m) => FrameAction::Deliver(m),
            Option::None => FrameAction::FailDecode,
        },
        WsFrame::Text => FrameAction::Skip,
        WsFrame::Ping => FrameAction::Skip,
        WsFrame::Pong => FrameAction::Skip,
        WsFrame::Close => FrameAction::FailConnection,
        WsFrame::Other => FrameAction::Skip,
    }
}

} // verus!
