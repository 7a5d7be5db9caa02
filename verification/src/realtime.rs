//! Realtime RPC transport core: correlation-id generation, the handshake
//! state machine, and single/batched call dispatch.
//!
//! The transport multiplexes correlated request/response pairs over one
//! duplex socket.  Everything that decides is here and verified; the socket
//! itself is driven by the (unverified) binary, which feeds decoded frames
//! into these state machines and performs the actions they return.

use vstd::prelude::*;
use vstd::string::*;
use crate::protocol::{ClientBody, ClientMessage, ServerMessage};
use crate::strutil::{eq_ignore_ascii_case, eq_ignore_case, i64_to_dec, spec_dec_signed};

verus! {

/// Fixed reference epoch for correlation-id timestamps: 2025-01-01T00:00:00Z
/// as seconds since the Unix epoch.
pub const EPOCH_SECONDS: u64 = 1_735_689_600;

/// A correlation id packs a generator-relative timestamp (seconds since
/// [`EPOCH_SECONDS`], truncated to 32 bits) in its high half and a
/// per-second sequence number in its low half.
pub open spec fn id_of(timestamp: u64, sequence: u32) -> u64 {
    (((timestamp as int % 0x1_0000_0000) * 0x1_0000_0000) + sequence as int) as u64
}

/// Seconds since the fixed reference epoch for a given wall-clock reading,
/// saturating at zero for clocks set before the epoch.
pub open spec fn epoch_shift(now: u64) -> u64 {
    if now >= EPOCH_SECONDS {
        (now - EPOCH_SECONDS) as u64
    } else {
        0u64
    }
}

/// Produces unique per-message identifiers used to match requests to
/// responses.  Owned exclusively by one connection; never shared.
pub struct IdGenerator {
    /// Timestamp (seconds since the reference epoch) of the last allocation.
    pub last_timestamp: u64,
    /// Number of ids already allocated in that second.
    pub sequence: u32,
}

impl IdGenerator {
    /// A fresh generator, as made for a brand-new connection.
    pub fn new() -> (r: IdGenerator)
        ensures
            r.last_timestamp == 0,
            r.sequence == 0,
    {
        IdGenerator { last_timestamp: 0, sequence: 0 }
    }

    /// Allocates the next id for the wall-clock reading `now` (seconds since
    /// the Unix epoch).  Within one generator-second the sequence advances by
    /// exactly one (wrapping after 2^32 allocations, a documented
    /// limitation); when the second changes the sequence resets to zero.
    pub fn next_id_at(&mut self, now: u64) -> (r: u64)
        ensures
            final(self).last_timestamp == epoch_shift(now),
            final(self).sequence == if epoch_shift(now) == old(self).last_timestamp {
                ((old(self).sequence as int + 1) % 0x1_0000_0000) as u32
            } else {
                0u32
            },
            r == id_of(final(self).last_timestamp, final(self).sequence),
    {
        let timestamp: u64 = if now >= EPOCH_SECONDS {
            now - EPOCH_SECONDS
        } else {
            0
        };
        if timestamp == self.last_timestamp {
            self.sequence = self.sequence.wrapping_add(1);
        } else {
            self.sequence = 0;
            self.last_timestamp = timestamp;
        }
        let low: u64 = self.last_timestamp % 0x1_0000_0000;
        low * 0x1_0000_0000 + self.sequence as u64
    }
}

/// Reading the wall clock and allocating against it.  Whatever the clock
/// returned, the id is packed from the generator's new state: a sequence
/// step within the same second, a reset on a new one.
impl IdGenerator {
    /// Allocates the next id against the machine's wall clock.
    pub fn next_id(&mut self) -> (r: u64)
        ensures
            r == id_of(final(self).last_timestamp, final(self).sequence),
            final(self).sequence == if final(self).last_timestamp == old(
                self,
            ).last_timestamp {
                ((old(self).sequence as int + 1) % 0x1_0000_0000) as u32
            } else {
                0u32
            },
    {
        let now = current_epoch_seconds();
        self.next_id_at(now)
    }
}

/// Ids allocated in the same generator-second are strictly increasing by
/// exactly one per allocation, starting from zero when the generator first
/// sees that second; and any id allocated in a later second is numerically
/// larger than any id allocated in an earlier second.  The bounds leave out
/// only what the design documents as out of range: more than 2^32
/// allocations in one second, and timestamps past the 32-bit horizon.
pub proof fn lemma_ids_increase(t: u64, s1: u32, s2: u32, t_later: u64, s3: u32)
    requires
        t < 0x1_0000_0000,
        t_later < 0x1_0000_0000,
        s1 < s2,
        t < t_later,
    ensures
        id_of(t, s1) < id_of(t, s2),
        s2 == s1 + 1 ==> id_of(t, s2) == id_of(t, s1) + 1,
        id_of(t, s3) < id_of(t_later, 0),
{
    assert(t as int % 0x1_0000_0000 == t as int);
    assert(t_later as int % 0x1_0000_0000 == t_later as int);
    assert(t as int * 0x1_0000_0000 + 0x1_0000_0000 <= t_later as int * 0x1_0000_0000)
        by (nonlinear_arith)
        requires
            t < t_later,
    ;
}

/// Relies on `std::time::SystemTime::now`: the wall clock as whole
/// seconds since the Unix epoch (zero if the clock reads before it).
/// Nothing can be promised of the clock's value.
#[verifier::external_body]
pub fn current_epoch_seconds() -> u64 {
    std::time::SystemTime::now().duration_since(std::time::UNIX_EPOCH).unwrap_or_default()
        .as_secs()
}

/// Errors surfaced by the realtime transport.  Transport-level failures
/// (socket, TLS, DNS, URL) are mapped into `ConnectionError` by the binary
/// that owns the socket; everything the protocol itself decides is here.
#[derive(Debug, Clone, PartialEq)]
pub enum RealtimeError {
    /// The envelope bytes could not be decoded.
    Protocol,
    /// An `RpcResult` arrived without its inner payload: a server contract
    /// violation, never retried.
    MissingResult,
    /// The connection failed or the server reported a connection error.
    ConnectionError,
    /// An application-level RPC failure, with the raw transport status
    /// `code`, the raw application `error_code`, the raw server `message`,
    /// and the derived human-readable `friendly` label.
    RpcError { code: i32, error_code: i32, message: String, friendly: String },
}

/// The fixed table of human labels for the server's enumerated error codes.
pub open spec fn error_label(error_code: int) -> Seq<char> {
    if error_code == 1 { "Bad request"@ }
    else if error_code == 2 { "Not authenticated"@ }
    else if error_code == 3 { "Rate limited"@ }
    else if error_code == 4 { "Internal server error"@ }
    else if error_code == 5 { "Invalid peer (chat/user id)"@ }
    else if error_code == 6 { "Invalid message id"@ }
    else if error_code == 7 { "Invalid user id"@ }
    else if error_code == 8 { "User already in chat/space"@ }
    else if error_code == 9 { "Invalid space id"@ }
    else if error_code == 10 { "Invalid chat id"@ }
    else if error_code == 11 { "Invalid email address"@ }
    else if error_code == 12 { "Invalid phone number"@ }
    else if error_code == 13 { "Space admin required"@ }
    else if error_code == 14 { "Space owner required"@ }
    else { "Unknown RPC error"@ }
}

/// The friendly message: the label; then `": "` and the raw server message
/// when that message is non-empty and not case-equal to the label; then a
/// parenthetical HTTP status suffix when a non-zero status is present.
pub open spec fn friendly_message(error_code: int, message: Seq<char>, status_code: int) -> Seq<
    char,
> {
    let label = error_label(error_code);
    let base = if message.len() > 0 && !eq_ignore_case(message, label) {
        label + ": "@ + message
    } else {
        label
    };
    if status_code != 0 {
        base + " (HTTP "@ + spec_dec_signed(status_code) + ")"@
    } else {
        base
    }
}

/// The human label for one server error code; unknown codes map to a
/// generic label while callers keep the raw code.
pub fn error_code_label(error_code: i32) -> (r: &'static str)
    ensures
        r@ == error_label(error_code as int),
{
    if error_code == 1 { "Bad request" }
    else if error_code == 2 { "Not authenticated" }
    else if error_code == 3 { "Rate limited" }
    else if error_code == 4 { "Internal server error" }
    else if error_code == 5 { "Invalid peer (chat/user id)" }
    else if error_code == 6 { "Invalid message id" }
    else if error_code == 7 { "Invalid user id" }
    else if error_code == 8 { "User already in chat/space" }
    else if error_code == 9 { "Invalid space id" }
    else if error_code == 10 { "Invalid chat id" }
    else if error_code == 11 { "Invalid email address" }
    else if error_code == 12 { "Invalid phone number" }
    else if error_code == 13 { "Space admin required" }
    else if error_code == 14 { "Space owner required" }
    else { "Unknown RPC error" }
}

/// Translates a numeric server error into a human-readable line.
pub fn format_rpc_error(error_code: i32, message: &str, status_code: i32) -> (r: String)
    ensures
        r@ == friendly_message(error_code as int, message@, status_code as int),
{
    let label = error_code_label(error_code);
    let mut out = String::from_str(label);
    if !message.is_empty() && !eq_ignore_ascii_case(message, label) {
        out.append(": ");
        out.append(message);
        assert(out@ =~= error_label(error_code as int) + ": "@ + message@);
    }
    if status_code != 0 {
        let ghost before = out@;
        out.append(" (HTTP ");
        let digits = i64_to_dec(status_code as i64);
        out.append(digits.as_str());
        out.append(")");
        assert(out@ =~= before + " (HTTP "@ + spec_dec_signed(status_code as int) + ")"@);
    }
    out
}

/// Handshake progress of one connection.
#[derive(Clone, Copy, Debug, PartialEq, Eq, Structural)]
pub enum HandshakeState {
    /// Socket opened, greeting not yet sent.
    Connecting,
    /// Greeting sent; waiting for the server's verdict.
    Authenticating,
    /// The server accepted the connection; calls are allowed.
    Open,
    /// The handshake failed or the connection died; terminal.
    Failed,
}

/// One step of the handshake receive loop: in `Authenticating`, the first
/// `ConnectionOpen` opens the connection and the first `ConnectionError`
/// fails it; every other frame is discarded without affecting state.
/// `Open` and `Failed` are absorbing.
pub open spec fn handshake_step(state: HandshakeState, frame: ServerMessage) -> HandshakeState {
    if state == HandshakeState::Authenticating {
        match frame {
            ServerMessage::ConnectionOpen => HandshakeState::Open,
            ServerMessage::ConnectionError => HandshakeState::Failed,
            _ => state,
        }
    } else {
        state
    }
}

/// The handshake state after a whole sequence of frames.
pub open spec fn handshake_run(state: HandshakeState, frames: Seq<ServerMessage>) -> HandshakeState
    decreases frames.len(),
{
    if frames.len() == 0 {
        state
    } else {
        handshake_run(handshake_step(state, frames[0]), frames.drop_first())
    }
}

/// The one-time state machine that authenticates a new connection before
/// any call is allowed.
pub struct Handshake {
    pub state: HandshakeState,
}

impl Handshake {
    /// A handshake for a just-opened socket.
    pub fn new() -> (r: Handshake)
        ensures
            r.state == HandshakeState::Connecting,
    {
        Handshake { state: HandshakeState::Connecting }
    }

    /// Records that the `ConnectionInit` greeting went out.
    pub fn note_init_sent(&mut self)
        requires
            old(self).state == HandshakeState::Connecting,
        ensures
            final(self).state == HandshakeState::Authenticating,
    {
        self.state = HandshakeState::Authenticating;
    }

    /// Feeds one decoded server frame to the handshake.
    pub fn on_frame(&mut self, frame: &ServerMessage)
        ensures
            final(self).state == handshake_step(old(self).state, *frame),
    {
        if self.state == HandshakeState::Authenticating {
            match frame {
                ServerMessage::ConnectionOpen => {
                    self.state = HandshakeState::Open;
                }
                ServerMessage::ConnectionError => {
                    self.state = HandshakeState::Failed;
                }
                _ => {}
            }
        }
    }

    /// Records that the socket closed or a transport failure occurred:
    /// terminal, whatever the phase.
    pub fn on_transport_failure(&mut self)
        ensures
            final(self).state == HandshakeState::Failed,
    {
        self.state = HandshakeState::Failed;
    }

    /// Whether calls are allowed on this connection.
    pub fn is_open(&self) -> (r: bool)
        ensures
            r == (self.state == HandshakeState::Open),
    {
        self.state == HandshakeState::Open
    }

    /// Feeds a whole sequence of frames, as the receive loop would.
    pub fn on_frames(&mut self, frames: &Vec<ServerMessage>)
        ensures
            final(self).state == handshake_run(old(self).state, frames@),
    {
        let n = frames.len();
        let mut i: usize = 0;
        proof {
            assert(frames@.skip(0) =~= frames@);
        }
        while i < n
            invariant
                i <= n,
                n == frames@.len(),
                handshake_run(self.state, frames@.skip(i as int)) == handshake_run(
                    old(self).state,
                    frames@,
                ),
            decreases n - i,
        {
            proof {
                assert(frames@.skip(i as int)[0] == frames@[i as int]);
                assert(frames@.skip(i as int).drop_first() =~= frames@.skip(i as int + 1));
            }
            self.on_frame(&frames[i]);
            i = i + 1;
        }
        proof {
            assert(frames@.skip(n as int) =~= Seq::<ServerMessage>::empty());
        }
    }
}

/// Receiving `ConnectionError` before any `ConnectionOpen` places the
/// connection in `Failed`; since `Failed` absorbs every later frame, the
/// connection can never reach `Open` afterward, and no call may be built
/// for it (building a call requires the `Open` state).
pub proof fn lemma_handshake_error_first(frames: Seq<ServerMessage>, k: int)
    requires
        0 <= k < frames.len(),
        frames[k] is ConnectionError,
        forall|j: int| 0 <= j < k ==> !(#[trigger] frames[j] is ConnectionOpen),
    ensures
        handshake_run(HandshakeState::Authenticating, frames) == HandshakeState::Failed,
    decreases k,
{
    if k == 0 {
        lemma_handshake_failed_absorbs(frames.drop_first());
    } else {
        match frames[0] {
            ServerMessage::ConnectionError => {
                lemma_handshake_failed_absorbs(frames.drop_first());
            }
            _ => {
                assert(!(frames[0] is ConnectionOpen));
                assert(handshake_step(HandshakeState::Authenticating, frames[0])
                    == HandshakeState::Authenticating);
                assert(frames.drop_first()[k - 1] == frames[k]);
                assert(forall|j: int|
                    0 <= j < k - 1 ==> !(#[trigger] frames.drop_first()[j] is ConnectionOpen));
                lemma_handshake_error_first(frames.drop_first(), k - 1);
            }
        }
    }
}

/// `Failed` is terminal: no sequence of frames leaves it.
pub proof fn lemma_handshake_failed_absorbs(frames: Seq<ServerMessage>)
    ensures
        handshake_run(HandshakeState::Failed, frames) == HandshakeState::Failed,
    decreases frames.len(),
{
    if frames.len() > 0 {
        lemma_handshake_failed_absorbs(frames.drop_first());
    }
}

/// The verified half of one realtime connection: the transport sequence
/// counter, the id generator, and the handshake state, owned exclusively by
/// one connection value.  The socket itself lives outside the library; the
/// binary asks this state machine for the messages to send and feeds the
/// frames it reads back into it.
pub struct RealtimeClient {
    /// Monotonically increasing transport sequence number.
    pub seq: u32,
    /// Correlation-id generator; ids are unique within this connection.
    pub id_gen: IdGenerator,
    /// Handshake progress.
    pub handshake: Handshake,
}

impl RealtimeClient {
    /// State for a just-opened socket: handshake not yet begun.
    pub fn new() -> (r: RealtimeClient)
        ensures
            r.seq == 0,
            r.id_gen.last_timestamp == 0,
            r.id_gen.sequence == 0,
            r.handshake.state == HandshakeState::Connecting,
    {
        RealtimeClient { seq: 0, id_gen: IdGenerator::new(), handshake: Handshake::new() }
    }

    /// Advances and returns the transport sequence number (wrapping).
    pub fn next_seq(&mut self) -> (r: u32)
        ensures
            final(self).seq == ((old(self).seq as int + 1) % 0x1_0000_0000) as u32,
            r == final(self).seq,
            final(self).id_gen == old(self).id_gen,
            final(self).handshake == old(self).handshake,
    {
        self.seq = self.seq.wrapping_add(1);
        self.seq
    }

    /// Builds the one-time `ConnectionInit` greeting, with its own fresh
    /// correlation id and sequence number — the transport sequence steps
    /// by exactly one and the id generator advances as [`IdGenerator::next_id_at`]
    /// does — and marks the handshake as waiting for the server's verdict.
    pub fn connection_init_message(
        &mut self,
        token: Vec<u8>,
        client_version: Vec<u8>,
        now: u64,
    ) -> (r: ClientMessage)
        requires
            old(self).handshake.state == HandshakeState::Connecting,
        ensures
            final(self).handshake.state == HandshakeState::Authenticating,
            r.body matches ClientBody::ConnectionInit { token: t, client_version: v } && t
                == token && v == client_version,
            final(self).seq == ((old(self).seq as int + 1) % 0x1_0000_0000) as u32,
            final(self).id_gen.last_timestamp == epoch_shift(now),
            final(self).id_gen.sequence == if epoch_shift(now) == old(
                self,
            ).id_gen.last_timestamp {
                ((old(self).id_gen.sequence as int + 1) % 0x1_0000_0000) as u32
            } else {
                0u32
            },
            r.id == id_of(final(self).id_gen.last_timestamp, final(self).id_gen.sequence),
            r.seq == final(self).seq,
    {
        let id = self.id_gen.next_id_at(now);
        let seq = self.next_seq();
        self.handshake.note_init_sent();
        ClientMessage { id, seq, body: ClientBody::ConnectionInit { token, client_version } }
    }

    /// Builds one RPC call message.  No call may be built before the
    /// handshake has produced `ConnectionOpen`: the `Open` state is
    /// required, and a failed handshake can never reach it.  The
    /// transport sequence steps by exactly one and the id generator
    /// advances as [`IdGenerator::next_id_at`] does, so within one second
    /// ids step by one and across seconds they grow (see
    /// [`lemma_ids_increase`]): an id is never reused on a connection.
    pub fn rpc_call_message(&mut self, method: u64, input: Vec<u8>, now: u64) -> (r: ClientMessage)
        requires
            old(self).handshake.state == HandshakeState::Open,
        ensures
            final(self).handshake == old(self).handshake,
            r.body matches ClientBody::RpcCall { method: m, input: i } && m == method && i
                == input,
            final(self).seq == ((old(self).seq as int + 1) % 0x1_0000_0000) as u32,
            final(self).id_gen.last_timestamp == epoch_shift(now),
            final(self).id_gen.sequence == if epoch_shift(now) == old(
                self,
            ).id_gen.last_timestamp {
                ((old(self).id_gen.sequence as int + 1) % 0x1_0000_0000) as u32
            } else {
                0u32
            },
            r.id == id_of(final(self).id_gen.last_timestamp, final(self).id_gen.sequence),
            r.seq == final(self).seq,
    {
        let id = self.id_gen.next_id_at(now);
        let seq = self.next_seq();
        ClientMessage { id, seq, body: ClientBody::RpcCall { method, input } }
    }
}

} // verus!
