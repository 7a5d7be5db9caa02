//! Request/response correlation: single-call dispatch and batched dispatch.
//!
//! Both dispatchers are pure state machines over decoded server frames.
//! The binary that owns the socket reads frames one at a time and feeds
//! them in; these functions decide which frame terminates which call and
//! what the caller gets back, and they are verified to ignore every
//! unrelated frame.

use vstd::prelude::*;
use crate::protocol::ServerMessage;
use crate::realtime::{format_rpc_error, friendly_message, RealtimeError};

verus! {

/// What `String::from_utf8_lossy` returns for given bytes: the result
/// depends on the bytes alone.
pub uninterp spec fn utf8_lossy_of(bytes: Seq<u8>) -> Seq<char>;

/// Relies on `String::from_utf8_lossy` from std: lossy UTF-8 decoding, a
/// function of the input bytes alone.
#[verifier::external_body]
fn bytes_to_string_lossy(v: &Vec<u8>) -> (r: String)
    ensures
        r@ == utf8_lossy_of(v@),
{
    String::from_utf8_lossy(v.as_slice()).into_owned()
}

/// The decision a single frame forces on one outstanding call, if any:
/// the mathematical counterpart of the dispatch loop's match.
pub enum CallDecision {
    /// A matching `RpcResult` with its payload.
    Success(Seq<u8>),
    /// A matching `RpcResult` without a payload: server contract violation.
    MissingPayload,
    /// A `ConnectionError` frame: fatal whatever the id.
    ConnectionFailed,
    /// A matching `RpcError` with its raw fields.
    Rpc { code: i32, error_code: i32, message: Seq<u8> },
}

/// What one frame means for the call with id `call_id`: `None` when the
/// frame is unrelated (a response for another id, a handshake frame, an
/// unrecognized body) and must be discarded.
pub open spec fn call_decision(call_id: u64, frame: ServerMessage) -> Option<CallDecision> {
    match frame {
        ServerMessage::RpcResult { req_msg_id, result } => if req_msg_id == call_id {
            match result {
                Option::Some(v) => Option::Some(CallDecision::Success(v@)),
                Option::None => Option::Some(CallDecision::MissingPayload),
            }
        } else {
            Option::None
        },
        ServerMessage::RpcError { req_msg_id, code, error_code, message } => if req_msg_id
            == call_id {
            Option::Some(CallDecision::Rpc { code, error_code, message: message@ })
        } else {
            Option::None
        },
        ServerMessage::ConnectionError => Option::Some(CallDecision::ConnectionFailed),
        _ => Option::None,
    }
}

/// The first decision a frame sequence forces on the call, if any.
pub open spec fn dispatch_decision(call_id: u64, frames: Seq<ServerMessage>) -> Option<
    CallDecision,
>
    decreases frames.len(),
{
    if frames.len() == 0 {
        Option::None
    } else {
        match call_decision(call_id, frames[0]) {
            Option::Some(d) => Option::Some(d),
            Option::None => dispatch_decision(call_id, frames.drop_first()),
        }
    }
}

/// A failing decision rendered as the error the caller receives.
pub open spec fn error_matches(e: RealtimeError, d: CallDecision) -> bool {
    match d {
        CallDecision::Success(_) => false,
        CallDecision::MissingPayload => e == RealtimeError::MissingResult,
        CallDecision::ConnectionFailed => e == RealtimeError::ConnectionError,
        CallDecision::Rpc { code, error_code, message } => e matches RealtimeError::RpcError {
            code: c,
            error_code: ec,
            message: m,
            friendly: f,
        } && c == code && ec == error_code && m@ == utf8_lossy_of(message) && f@
            == friendly_message(error_code as int, utf8_lossy_of(message), code as int),
    }
}

/// Progress of one outstanding call after some frames were seen.
#[derive(Debug, PartialEq)]
pub enum CallOutcome {
    /// No terminal response for this call yet; keep reading.
    Pending,
    /// The call ended: either its payload or its error.
    Done(Result<Vec<u8>, RealtimeError>),
}

/// The executable outcome agrees with the mathematical decision.
pub open spec fn outcome_matches(r: CallOutcome, d: Option<CallDecision>) -> bool {
    match d {
        Option::None => r is Pending,
        Option::Some(CallDecision::Success(v)) => r matches CallOutcome::Done(Result::Ok(p)) && p@
            == v,
        Option::Some(other) => r matches CallOutcome::Done(Result::Err(e)) && error_matches(
            e,
            other,
        ),
    }
}

/// Applies one received frame to the call with id `call_id`: the frame
/// either terminates the call (its own result or error, or a fatal
/// connection error) or is discarded.
pub fn call_step(call_id: u64, frame: &ServerMessage) -> (r: CallOutcome)
    ensures
        outcome_matches(r, call_decision(call_id, *frame)),
{
    match frame {
        ServerMessage::RpcResult { req_msg_id, result } => {
            if *req_msg_id == call_id {
                match result {
                    Option::Some(v) => CallOutcome::Done(Result::Ok(v.clone())),
                    Option::None => CallOutcome::Done(Result::Err(RealtimeError::MissingResult)),
                }
            } else {
                CallOutcome::Pending
            }
        }
        ServerMessage::RpcError { req_msg_id, code, error_code, message } => {
            if *req_msg_id == call_id {
                let msg = bytes_to_string_lossy(message);
                let friendly = format_rpc_error(*error_code, msg.as_str(), *code);
                CallOutcome::Done(
                    Result::Err(
                        RealtimeError::RpcError {
                            code: *code,
                            error_code: *error_code,
                            message: msg,
                            friendly,
                        },
                    ),
                )
            } else {
                CallOutcome::Pending
            }
        }
        ServerMessage::ConnectionError => CallOutcome::Done(
            Result::Err(RealtimeError::ConnectionError),
        ),
        _ => CallOutcome::Pending,
    }
}

/// Runs the single-call dispatch loop over an already-received sequence of
/// frames: the outcome is exactly what the first related frame dictates,
/// and `Pending` when no frame relates to the call.
pub fn dispatch_call(call_id: u64, frames: &Vec<ServerMessage>) -> (r: CallOutcome)
    ensures
        outcome_matches(r, dispatch_decision(call_id, frames@)),
{
    let n = frames.len();
    let mut i: usize = 0;
    proof {
        assert(frames@.skip(0) =~= frames@);
    }
    while i < n
        invariant
            i <= n,
            n == frames@.len(),
            dispatch_decision(call_id, frames@.skip(i as int)) == dispatch_decision(
                call_id,
                frames@,
            ),
        decreases n - i,
    {
        proof {
            assert(frames@.skip(i as int)[0] == frames@[i as int]);
            assert(frames@.skip(i as int).drop_first() =~= frames@.skip(i as int + 1));
        }
        let step = call_step(call_id, &frames[i]);
        match step {
            CallOutcome::Pending => {}
            CallOutcome::Done(outcome) => {
                return CallOutcome::Done(outcome);
            }
        }
        i = i + 1;
    }
    proof {
        assert(frames@.skip(n as int) =~= Seq::<ServerMessage>::empty());
    }
    CallOutcome::Pending
}

/// No cross-talk: frames that force no decision for a call — responses for
/// other ids, control frames, unrecognized bodies — never change what the
/// call returns, wherever they are interleaved before its own response.
pub proof fn lemma_unrelated_prefix_ignored(
    call_id: u64,
    prefix: Seq<ServerMessage>,
    rest: Seq<ServerMessage>,
)
    requires
        forall|i: int|
            0 <= i < prefix.len() ==> call_decision(call_id, #[trigger] prefix[i]) is None,
    ensures
        dispatch_decision(call_id, prefix + rest) == dispatch_decision(call_id, rest),
    decreases prefix.len(),
{
    if prefix.len() == 0 {
        assert(prefix + rest =~= rest);
    } else {
        assert((prefix + rest)[0] == prefix[0]);
        assert((prefix + rest).drop_first() =~= prefix.drop_first() + rest);
        lemma_unrelated_prefix_ignored(call_id, prefix.drop_first(), rest);
    }
}

/// First index at which `req` occurs among the batch ids, or -1.
pub open spec fn find_id(ids: Seq<u64>, req: u64) -> int
    decreases ids.len(),
{
    if ids.len() == 0 {
        -1
    } else if ids[0] == req {
        0
    } else {
        let r = find_id(ids.drop_first(), req);
        if r < 0 {
            -1
        } else {
            r + 1
        }
    }
}

/// What `find_id` finds: the first matching index, or none at all.
pub proof fn lemma_find_id(ids: Seq<u64>, req: u64)
    ensures
        find_id(ids, req) == -1 ==> forall|j: int| 0 <= j < ids.len() ==> #[trigger] ids[j] != req,
        find_id(ids, req) != -1 ==> 0 <= find_id(ids, req) < ids.len() && ids[find_id(ids, req)]
            == req && forall|j: int| 0 <= j < find_id(ids, req) ==> #[trigger] ids[j] != req,
    decreases ids.len(),
{
    if ids.len() > 0 && ids[0] != req {
        lemma_find_id(ids.drop_first(), req);
        assert(forall|j: int|
            1 <= j < ids.len() ==> #[trigger] ids[j] == ids.drop_first()[j - 1]);
    }
}

/// `find_id` returns the first index whose id matches.
pub proof fn lemma_find_id_first(ids: Seq<u64>, req: u64, j: int)
    requires
        0 <= j < ids.len(),
        ids[j] == req,
        forall|k: int| 0 <= k < j ==> #[trigger] ids[k] != req,
    ensures
        find_id(ids, req) == j,
    decreases j,
{
    if j > 0 {
        assert(ids.drop_first()[j - 1] == ids[j]);
        assert(forall|k: int|
            0 <= k < j - 1 ==> #[trigger] ids.drop_first()[k] == ids[k + 1]);
        lemma_find_id_first(ids.drop_first(), req, j - 1);
    }
}

/// Finds the position of a correlation id among the batch's ids.
fn find_index(ids: &Vec<u64>, req: u64) -> (r: Option<usize>)
    ensures
        match r {
            Option::Some(idx) => find_id(ids@, req) == idx && idx < ids@.len(),
            Option::None => find_id(ids@, req) == -1,
        },
{
    let n = ids.len();
    let mut j: usize = 0;
    while j < n
        invariant
            j <= n,
            n == ids@.len(),
            forall|k: int| 0 <= k < j ==> #[trigger] ids@[k] != req,
        decreases n - j,
    {
        if ids[j] == req {
            proof {
                lemma_find_id_first(ids@, req, j as int);
            }
            return Option::Some(j);
        }
        j = j + 1;
    }
    proof {
        lemma_find_id(ids@, req);
    }
    Option::None
}

/// The partial answers of a batch: position in the submission order mapped
/// to the payload recorded for that position's id.
pub open spec fn results_map(rs: Seq<Option<Vec<u8>>>) -> Map<int, Seq<u8>> {
    Map::new(|i: int| 0 <= i < rs.len() && rs[i] is Some, |i: int| rs[i]->0@)
}

/// Every position in the batch has its answer.
pub open spec fn batch_filled(n: int, acc: Map<int, Seq<u8>>) -> bool {
    forall|i: int| 0 <= i < n ==> acc.dom().contains(i)
}

/// Verdict of the batch dispatch over a frame sequence.
pub enum BatchVerdict {
    /// Every call got its answer; the map carries each position's payload.
    Complete(Map<int, Seq<u8>>),
    /// The first failing frame aborted the whole batch.
    Aborted(CallDecision),
    /// Frames ran out with calls still pending.
    Incomplete(Map<int, Seq<u8>>),
}

/// The batch dispatch loop as mathematics.  Frames are consumed in order
/// until every id has a recorded answer; a response for a pending batch id
/// fills its position (the first response for an id wins); an `RpcError`
/// for any batch id, a payload-less result for a pending one, or a
/// `ConnectionError` aborts the whole batch; everything else is discarded.
pub open spec fn batch_run(
    ids: Seq<u64>,
    frames: Seq<ServerMessage>,
    acc: Map<int, Seq<u8>>,
) -> BatchVerdict
    decreases frames.len(),
{
    if batch_filled(ids.len() as int, acc) {
        BatchVerdict::Complete(acc)
    } else if frames.len() == 0 {
        BatchVerdict::Incomplete(acc)
    } else {
        let rest = frames.drop_first();
        match frames[0] {
            ServerMessage::RpcResult { req_msg_id, result } => {
                let idx = find_id(ids, req_msg_id);
                if idx >= 0 && !acc.dom().contains(idx) {
                    match result {
                        Option::Some(v) => batch_run(ids, rest, acc.insert(idx, v@)),
                        Option::None => BatchVerdict::Aborted(CallDecision::MissingPayload),
                    }
                } else {
                    batch_run(ids, rest, acc)
                }
            }
            ServerMessage::RpcError { req_msg_id, code, error_code, message } => {
                if find_id(ids, req_msg_id) >= 0 {
                    BatchVerdict::Aborted(
                        CallDecision::Rpc { code, error_code, message: message@ },
                    )
                } else {
                    batch_run(ids, rest, acc)
                }
            }
            ServerMessage::ConnectionError => BatchVerdict::Aborted(
                CallDecision::ConnectionFailed,
            ),
            _ => batch_run(ids, rest, acc),
        }
    }
}

/// Progress of one batch after some frames were seen.
#[derive(Debug, PartialEq)]
pub enum BatchOutcome {
    /// Some calls still lack their terminal response; keep reading.
    Pending,
    /// The batch ended: every payload in submission order, or the first
    /// error observed — never partial successes.
    Done(Result<Vec<Vec<u8>>, RealtimeError>),
}

/// The executable batch outcome agrees with the mathematical verdict.
pub open spec fn batch_outcome_matches(r: BatchOutcome, v: BatchVerdict, n: int) -> bool {
    match v {
        BatchVerdict::Complete(m) => r matches BatchOutcome::Done(Result::Ok(vs)) && vs@.len() == n
            && forall|i: int| 0 <= i < n ==> #[trigger] vs@[i]@ == m[i],
        BatchVerdict::Aborted(d) => r matches BatchOutcome::Done(Result::Err(e)) && error_matches(
            e,
            d,
        ),
        BatchVerdict::Incomplete(_) => r is Pending,
    }
}

/// All positions of the answer table are filled.
fn all_filled(results: &Vec<Option<Vec<u8>>>) -> (r: bool)
    ensures
        r == batch_filled(results@.len() as int, results_map(results@)),
{
    let n = results.len();
    let mut i: usize = 0;
    while i < n
        invariant
            i <= n,
            n == results@.len(),
            forall|k: int| 0 <= k < i ==> results_map(results@).dom().contains(k),
        decreases n - i,
    {
        if results[i].is_none() {
            assert(!results_map(results@).dom().contains(i as int));
            return false;
        }
        i = i + 1;
    }
    true
}

/// Unwraps a fully-filled answer table into the payloads, position by
/// position in submission order.
fn collect_results(results: Vec<Option<Vec<u8>>>) -> (r: Vec<Vec<u8>>)
    requires
        batch_filled(results@.len() as int, results_map(results@)),
    ensures
        r@.len() == results@.len(),
        forall|i: int| 0 <= i < r@.len() ==> #[trigger] r@[i]@ == results_map(results@)[i],
{
    let ghost original = results@;
    let mut remaining = results;
    let mut out: Vec<Vec<u8>> = Vec::new();
    let mut k: usize = 0;
    let n = remaining.len();
    while k < n
        invariant
            k <= n,
            n == original.len(),
            remaining@ =~= original.skip(k as int),
            out@.len() == k,
            batch_filled(original.len() as int, results_map(original)),
            forall|j: int| 0 <= j < k ==> #[trigger] out@[j]@ == results_map(original)[j],
        decreases n - k,
    {
        proof {
            assert(results_map(original).dom().contains(k as int));
            assert(remaining@[0] == original[k as int]);
        }
        let item = remaining.remove(0);
        match item {
            Option::Some(v) => {
                out.push(v);
            }
            Option::None => {
                proof {
                    assert(false);
                }
            }
        }
        k = k + 1;
    }
    out
}

/// Runs the batch dispatch loop over an already-received sequence of
/// frames.  On completion the payloads come back in the original
/// submission order, whatever order the responses arrived in; the first
/// failure observed aborts the whole batch with that error and no partial
/// successes.
pub fn dispatch_batch(ids: &Vec<u64>, frames: &Vec<ServerMessage>) -> (r: BatchOutcome)
    ensures
        batch_outcome_matches(
            r,
            batch_run(ids@, frames@, Map::<int, Seq<u8>>::empty()),
            ids@.len() as int,
        ),
{
    let n_ids = ids.len();
    let mut results: Vec<Option<Vec<u8>>> = Vec::new();
    while results.len() < n_ids
        invariant
            results@.len() <= n_ids,
            forall|k: int| 0 <= k < results@.len() ==> #[trigger] results@[k] is None,
        decreases n_ids - results@.len(),
    {
        results.push(Option::None);
    }
    proof {
        assert(results_map(results@) =~= Map::<int, Seq<u8>>::empty());
        assert(frames@.skip(0) =~= frames@);
    }
    let n_frames = frames.len();
    let mut i: usize = 0;
    loop
        invariant
            i <= n_frames,
            n_frames == frames@.len(),
            n_ids == ids@.len(),
            results@.len() == n_ids,
            batch_run(ids@, frames@, Map::<int, Seq<u8>>::empty()) == batch_run(
                ids@,
                frames@.skip(i as int),
                results_map(results@),
            ),
        decreases n_frames - i,
    {
        if all_filled(&results) {
            let vs = collect_results(results);
            return BatchOutcome::Done(Result::Ok(vs));
        }
        if i == n_frames {
            proof {
                assert(frames@.skip(i as int) =~= Seq::<ServerMessage>::empty());
            }
            return BatchOutcome::Pending;
        }
        proof {
            assert(frames@.skip(i as int)[0] == frames@[i as int]);
            assert(frames@.skip(i as int).drop_first() =~= frames@.skip(i as int + 1));
        }
        match &frames[i] {
            ServerMessage::RpcResult { req_msg_id, result } => {
                match find_index(ids, *req_msg_id) {
                    Option::Some(idx) => {
                        if results[idx].is_none() {
                            match result {
                                Option::Some(v) => {
                                    let ghost before = results@;
                                    results[idx] = Option::Some(v.clone());
                                    proof {
                                        assert(results_map(results@) =~= results_map(
                                            before,
                                        ).insert(idx as int, v@));
                                    }
                                }
                                Option::None => {
                                    return BatchOutcome::Done(
                                        Result::Err(RealtimeError::MissingResult),
                                    );
                                }
                            }
                        } else {
                            proof {
                                assert(results_map(results@).dom().contains(idx as int));
                            }
                        }
                    }
                    Option::None => {}
                }
            }
            ServerMessage::RpcError { req_msg_id, code, error_code, message } => {
                match find_index(ids, *req_msg_id) {
                    Option::Some(_) => {
                        let msg = bytes_to_string_lossy(message);
                        let friendly = format_rpc_error(*error_code, msg.as_str(), *code);
                        return BatchOutcome::Done(
                            Result::Err(
                                RealtimeError::RpcError {
                                    code: *code,
                                    error_code: *error_code,
                                    message: msg,
                                    friendly,
                                },
                            ),
                        );
                    }
                    Option::None => {}
                }
            }
            ServerMessage::ConnectionError => {
                return BatchOutcome::Done(Result::Err(RealtimeError::ConnectionError));
            }
            _ => {}
        }
        i = i + 1;
    }
}

/// Splitting the frame sequence at a point where the batch is still
/// incomplete lets the run resume on the remainder with the answers
/// gathered so far.
pub proof fn lemma_batch_run_append(
    ids: Seq<u64>,
    first: Seq<ServerMessage>,
    rest: Seq<ServerMessage>,
    acc: Map<int, Seq<u8>>,
)
    requires
        batch_run(ids, first, acc) is Incomplete,
    ensures
        batch_run(ids, first + rest, acc) == batch_run(
            ids,
            rest,
            batch_run(ids, first, acc)->Incomplete_0,
        ),
    decreases first.len(),
{
    if !batch_filled(ids.len() as int, acc) && first.len() > 0 {
        assert((first + rest)[0] == first[0]);
        assert((first + rest).drop_first() =~= first.drop_first() + rest);
        match first[0] {
            ServerMessage::RpcResult { req_msg_id, result } => {
                let idx = find_id(ids, req_msg_id);
                if idx >= 0 && !acc.dom().contains(idx) {
                    match result {
                        Option::Some(v) => {
                            lemma_batch_run_append(
                                ids,
                                first.drop_first(),
                                rest,
                                acc.insert(idx, v@),
                            );
                        }
                        Option::None => {}
                    }
                } else {
                    lemma_batch_run_append(ids, first.drop_first(), rest, acc);
                }
            }
            ServerMessage::RpcError { .. } => {
                lemma_batch_run_append(ids, first.drop_first(), rest, acc);
            }
            ServerMessage::ConnectionOpen => {
                lemma_batch_run_append(ids, first.drop_first(), rest, acc);
            }
            ServerMessage::Unknown => {
                lemma_batch_run_append(ids, first.drop_first(), rest, acc);
            }
            ServerMessage::ConnectionError => {}
        }
    } else if first.len() == 0 {
        assert(first + rest =~= rest);
    }
}

/// If one batched call is answered with `RpcError` while the batch is
/// still incomplete, the whole batch returns exactly that error — the
/// answers already gathered are abandoned, never returned as partial
/// successes.
pub proof fn lemma_batch_error_aborts(ids: Seq<u64>, frames: Seq<ServerMessage>, k: int)
    requires
        0 <= k < frames.len(),
        batch_run(ids, frames.take(k), Map::<int, Seq<u8>>::empty()) is Incomplete,
        frames[k] matches ServerMessage::RpcError { req_msg_id, .. } && find_id(ids, req_msg_id)
            >= 0,
    ensures
        frames[k] matches ServerMessage::RpcError { code, error_code, message, .. } ==> batch_run(
            ids,
            frames,
            Map::<int, Seq<u8>>::empty(),
        ) == BatchVerdict::Aborted(CallDecision::Rpc { code, error_code, message: message@ }),
{
    let acc = batch_run(ids, frames.take(k), Map::<int, Seq<u8>>::empty())->Incomplete_0;
    assert(frames =~= frames.take(k) + frames.skip(k));
    lemma_batch_run_append(ids, frames.take(k), frames.skip(k), Map::<int, Seq<u8>>::empty());
    lemma_incomplete_not_filled(ids, frames.take(k), Map::<int, Seq<u8>>::empty());
    assert(frames.skip(k)[0] == frames[k]);
}

/// An incomplete run really is incomplete: some position still waits.
proof fn lemma_incomplete_not_filled(
    ids: Seq<u64>,
    frames: Seq<ServerMessage>,
    acc: Map<int, Seq<u8>>,
)
    requires
        batch_run(ids, frames, acc) is Incomplete,
    ensures
        !batch_filled(ids.len() as int, batch_run(ids, frames, acc)->Incomplete_0),
    decreases frames.len(),
{
    if !batch_filled(ids.len() as int, acc) && frames.len() > 0 {
        let rest = frames.drop_first();
        match frames[0] {
            ServerMessage::RpcResult { req_msg_id, result } => {
                let idx = find_id(ids, req_msg_id);
                if idx >= 0 && !acc.dom().contains(idx) {
                    match result {
                        Option::Some(v) => {
                            lemma_incomplete_not_filled(ids, rest, acc.insert(idx, v@));
                        }
                        Option::None => {}
                    }
                } else {
                    lemma_incomplete_not_filled(ids, rest, acc);
                }
            }
            ServerMessage::RpcError { req_msg_id, .. } => {
                if find_id(ids, req_msg_id) < 0 {
                    lemma_incomplete_not_filled(ids, rest, acc);
                }
            }
            ServerMessage::ConnectionOpen => {
                lemma_incomplete_not_filled(ids, rest, acc);
            }
            ServerMessage::Unknown => {
                lemma_incomplete_not_filled(ids, rest, acc);
            }
            ServerMessage::ConnectionError => {}
        }
    }
}

/// The first terminal `RpcResult` payload a frame sequence carries for a
/// given correlation id, if any; an explicit inner `None` records a
/// payload-less result.
pub open spec fn first_result_for(id: u64, frames: Seq<ServerMessage>) -> Option<Option<Seq<u8>>>
    decreases frames.len(),
{
    if frames.len() == 0 {
        Option::None
    } else {
        match frames[0] {
            ServerMessage::RpcResult { req_msg_id, result } => if req_msg_id == id {
                Option::Some(
                    match result {
                        Option::Some(v) => Option::Some(v@),
                        Option::None => Option::None,
                    },
                )
            } else {
                first_result_for(id, frames.drop_first())
            },
            _ => first_result_for(id, frames.drop_first()),
        }
    }
}

/// When a batch of distinct ids completes, each position's payload is the
/// payload of the first `RpcResult` the server sent for that position's
/// own id — whatever order the responses arrived in, and with no
/// cross-talk between positions.
pub proof fn lemma_batch_first_wins(
    ids: Seq<u64>,
    frames: Seq<ServerMessage>,
    acc: Map<int, Seq<u8>>,
)
    requires
        forall|i: int, j: int| 0 <= i < j < ids.len() ==> ids[i] != ids[j],
        batch_run(ids, frames, acc) is Complete,
    ensures
        forall|idx: int|
            0 <= idx < ids.len() && !acc.dom().contains(idx) ==> first_result_for(
                #[trigger] ids[idx],
                frames,
            ) == Option::Some(
                Option::Some(batch_run(ids, frames, acc)->Complete_0[idx]),
            ),
        forall|idx: int|
            #![trigger acc[idx]]
            0 <= idx < ids.len() && acc.dom().contains(idx) ==> batch_run(
                ids,
                frames,
                acc,
            )->Complete_0[idx] == acc[idx],
    decreases frames.len(),
{
    let m = batch_run(ids, frames, acc)->Complete_0;
    if batch_filled(ids.len() as int, acc) {
        assert(m == acc);
    } else {
        assert(frames.len() > 0);
        let rest = frames.drop_first();
        lemma_find_id(ids, batch_frame_req(frames[0]));
        match frames[0] {
            ServerMessage::RpcResult { req_msg_id, result } => {
                let idx0 = find_id(ids, req_msg_id);
                if idx0 >= 0 && !acc.dom().contains(idx0) {
                    match result {
                        Option::Some(v) => {
                            let acc2 = acc.insert(idx0, v@);
                            lemma_batch_first_wins(ids, rest, acc2);
                            assert forall|idx: int|
                                0 <= idx < ids.len() && !acc.dom().contains(idx)
                                implies first_result_for(#[trigger] ids[idx], frames)
                                    == Option::Some(Option::Some(m[idx])) by {
                                if idx == idx0 {
                                    assert(acc2.dom().contains(idx0));
                                    assert(acc2[idx0] == v@);
                                    assert(m[idx0] == acc2[idx0]);
                                } else {
                                    assert(ids[idx] != req_msg_id);
                                    assert(first_result_for(ids[idx], frames)
                                        == first_result_for(ids[idx], rest));
                                    assert(!acc2.dom().contains(idx));
                                }
                            }
                            assert forall|idx: int|
                                0 <= idx < ids.len() && acc.dom().contains(idx)
                                implies m[idx] == #[trigger] acc[idx] by {
                                assert(acc2.dom().contains(idx));
                                assert(acc2[idx] == acc[idx]);
                            }
                        }
                        Option::None => {}
                    }
                } else {
                    lemma_batch_first_wins(ids, rest, acc);
                    assert forall|idx: int|
                        0 <= idx < ids.len() && !acc.dom().contains(idx)
                        implies first_result_for(#[trigger] ids[idx], frames) == Option::Some(
                            Option::Some(m[idx]),
                        ) by {
                        assert(ids[idx] != req_msg_id);
                        assert(first_result_for(ids[idx], frames) == first_result_for(
                            ids[idx],
                            rest,
                        ));
                    }
                }
            }
            ServerMessage::RpcError { req_msg_id, .. } => {
                assert(find_id(ids, req_msg_id) < 0);
                lemma_batch_first_wins(ids, rest, acc);
            }
            ServerMessage::ConnectionOpen => {
                lemma_batch_first_wins(ids, rest, acc);
            }
            ServerMessage::Unknown => {
                lemma_batch_first_wins(ids, rest, acc);
            }
            ServerMessage::ConnectionError => {
                assert(false);
            }
        }
    }
}

/// The correlation id a frame carries, where it carries one.
pub open spec fn batch_frame_req(frame: ServerMessage) -> u64 {
    match frame {
        ServerMessage::RpcResult { req_msg_id, .. } => req_msg_id,
        ServerMessage::RpcError { req_msg_id, .. } => req_msg_id,
        _ => 0,
    }
}

} // verus!
