//! The parser stage: validates each ordered tap as a JSON-RPC
//! request or response, correlates responses with outstanding
//! requests to compute latency, and emits structured log records.
//! Non-JSON taps are dropped silently.
use std::collections::HashMap;

use vstd::prelude::*;

use crate::codec::{all_digits, dec_val, parse_u64_dec};
use crate::crypto::random_uuid;
use crate::events::{McpLog, StreamDirection, TapEvent, log_wf, view_opt_bytes};
use crate::json::{Jv, JsonValue, str_content_ok, wf_json};
use crate::jtext::{parse_json, ser_value};
use crate::names::{k_error, k_id, k_method, k_result, kb_error, kb_id, kb_method, kb_result,
    lemma_plain_str_ok};
use crate::order::{bytes_eq, copy_bytes};

verus! {

broadcast use vstd::std_specs::hash::group_hash_axioms;

pub struct JsonRpcRequestV {
    pub method: Seq<u8>,
    pub id: Option<u64>,
    pub payload: Jv,
}

pub struct JsonRpcResponseV {
    pub id: Option<u64>,
    pub payload: Jv,
}

pub enum JsonRpcMessageV {
    Request(JsonRpcRequestV),
    Response(JsonRpcResponseV),
}

/// A parsed JSON-RPC request: it carries a method, possibly an id,
/// and the whole message as its payload.
pub struct JsonRpcRequest {
    pub method: Vec<u8>,
    pub id: Option<u64>,
    pub payload: JsonValue,
}

/// A parsed JSON-RPC response: a result or error, possibly an id.
pub struct JsonRpcResponse {
    pub id: Option<u64>,
    pub payload: JsonValue,
}

pub enum JsonRpcMessage {
    Request(JsonRpcRequest),
    Response(JsonRpcResponse),
}

impl View for JsonRpcRequest {
    type V = JsonRpcRequestV;

    open spec fn view(&self) -> JsonRpcRequestV {
        JsonRpcRequestV { method: self.method@, id: self.id, payload: self.payload.deep_view() }
    }
}

impl View for JsonRpcResponse {
    type V = JsonRpcResponseV;

    open spec fn view(&self) -> JsonRpcResponseV {
        JsonRpcResponseV { id: self.id, payload: self.payload.deep_view() }
    }
}

impl View for JsonRpcMessage {
    type V = JsonRpcMessageV;

    open spec fn view(&self) -> JsonRpcMessageV {
        match self {
            JsonRpcMessage::Request(r) => JsonRpcMessageV::Request(r@),
            JsonRpcMessage::Response(r) => JsonRpcMessageV::Response(r@),
        }
    }
}

/// The value of the first member with the given key.
pub open spec fn obj_first(m: Seq<(Seq<u8>, Jv)>, k: Seq<u8>) -> Option<Jv>
    decreases m.len(),
{
    if m.len() == 0 {
        None
    } else if m[0].0 == k {
        Some(m[0].1)
    } else {
        obj_first(m.drop_first(), k)
    }
}

/// The message id, read from the first `id` member: absent or null
/// means no id; an unsigned decimal number is the id; anything else
/// makes the whole message unusable (as a typed decode would fail).
pub open spec fn id_field(m: Seq<(Seq<u8>, Jv)>) -> Result<Option<u64>, ()> {
    match obj_first(m, k_id()) {
        None => Ok(None),
        Some(Jv::Null) => Ok(None),
        Some(Jv::Num(t)) => if t.len() > 0 && all_digits(t) && dec_val(t) <= u64::MAX {
            Ok(Some(dec_val(t) as u64))
        } else {
            Err(())
        },
        Some(_) => Err(()),
    }
}

/// Classification of a JSON value as a JSON-RPC message: an object
/// with a string `method` is a request; otherwise an object with a
/// `result` or `error` member is a response; anything else is not a
/// message.
pub open spec fn classify_spec(v: Jv) -> Option<JsonRpcMessageV> {
    match v {
        Jv::Obj(m) => {
            match obj_first(m, k_method()) {
                Some(Jv::Str(meth)) => {
                    match id_field(m) {
                        Ok(id) => Some(
                            JsonRpcMessageV::Request(
                                JsonRpcRequestV { method: meth, id, payload: v },
                            ),
                        ),
                        Err(()) => None,
                    }
                },
                Some(_) => None,
                None => {
                    if obj_first(m, k_result()) is Some || obj_first(m, k_error()) is Some {
                        match id_field(m) {
                            Ok(id) => Some(
                                JsonRpcMessageV::Response(JsonRpcResponseV { id, payload: v }),
                            ),
                            Err(()) => None,
                        }
                    } else {
                        None
                    }
                },
            }
        },
        _ => None,
    }
}

/// Finds the first member with the given key.
#[verifier::loop_isolation(false)]
pub fn find_first<'a>(m: &'a Vec<(Vec<u8>, JsonValue)>, k: &Vec<u8>) -> (r: Option<&'a JsonValue>)
    ensures
        match r {
            Some(v) => obj_first(crate::json::members_view(m@), k@) == Some(v.deep_view()),
            None => obj_first(crate::json::members_view(m@), k@) is None,
        },
{
    let ghost mv = crate::json::members_view(m@);
    let mut i: usize = 0;
    proof {
        assert(mv.skip(0) =~= mv);
    }
    while i < m.len()
        invariant
            i <= m@.len(),
            forall|j: int| 0 <= j < i ==> #[trigger] mv[j].0 != k@,
            obj_first(mv, k@) == obj_first(mv.skip(i as int), k@),
        decreases m@.len() - i,
    {
        proof {
            assert(mv.skip(i as int)[0] == mv[i as int]);
        }
        if bytes_eq(&m[i].0, k) {
            proof {
                assert(mv[i as int].0 == k@);
                assert(obj_first(mv.skip(i as int), k@) == Some(mv[i as int].1));
            }
            return Some(&m[i].1);
        }
        proof {
            assert(mv.skip(i as int).drop_first() =~= mv.skip(i + 1));
        }
        i = i + 1;
    }
    proof {
        assert(mv.skip(i as int) =~= Seq::<(Seq<u8>, Jv)>::empty());
    }
    None
}

/// Reads the message id.
fn read_id_field(m: &Vec<(Vec<u8>, JsonValue)>) -> (r: Result<Option<u64>, ()>)
    ensures
        r == id_field(crate::json::members_view(m@)),
{
    match find_first(m, &kb_id()) {
        None => Ok(None),
        Some(JsonValue::Null) => Ok(None),
        Some(JsonValue::Num(t)) => {
            match parse_u64_dec(t) {
                Some(n) => Ok(Some(n)),
                None => Err(()),
            }
        },
        Some(_) => Err(()),
    }
}

/// Classifies a parsed JSON value as a JSON-RPC message.
pub fn classify_message(v: JsonValue) -> (r: Option<JsonRpcMessage>)
    ensures
        match r {
            Some(msg) => classify_spec(v.deep_view()) == Some(msg@),
            None => classify_spec(v.deep_view()) is None,
        },
{
    let m = match &v {
        JsonValue::Obj(m) => m,
        _ => {
            return None;
        },
    };
    proof {
        assert(v.deep_view()->Obj_0 =~= crate::json::members_view(m@));
    }
    let method = match find_first(m, &kb_method()) {
        Some(JsonValue::Str(s)) => Some(copy_bytes(s)),
        Some(_) => {
            return None;
        },
        None => None,
    };
    match method {
        Some(meth) => {
            let id = match read_id_field(m) {
                Ok(id) => id,
                Err(()) => {
                    return None;
                },
            };
            Some(JsonRpcMessage::Request(JsonRpcRequest { method: meth, id, payload: v }))
        },
        None => {
            let has_result = match find_first(m, &kb_result()) {
                Some(_) => true,
                None => false,
            };
            let has_error = match find_first(m, &kb_error()) {
                Some(_) => true,
                None => false,
            };
            if !(has_result || has_error) {
                return None;
            }
            let id = match read_id_field(m) {
                Ok(id) => id,
                Err(()) => {
                    return None;
                },
            };
            Some(JsonRpcMessage::Response(JsonRpcResponse { id, payload: v }))
        },
    }
}

/// A span identifier: the 36 bytes of a hyphenated UUID, always
/// valid string content.
pub open spec fn span_ok(s: Seq<u8>) -> bool {
    s.len() == 36 && str_content_ok(s)
}

/// Draws a fresh span identifier.
fn new_span() -> (r: Vec<u8>)
    ensures
        span_ok(r@),
{
    let s = random_uuid();
    proof {
        lemma_plain_str_ok(s@);
    }
    s
}

/// The latency between a request seen at `start` and a response seen
/// at `now`, clamped at zero if the wall clock moved backwards.
pub open spec fn latency_of(now: u64, start: u64) -> u64 {
    if now >= start {
        (now - start) as u64
    } else {
        0u64
    }
}

/// The exact outcome of handling one classified message: what record
/// comes out (if any) and how the pending table moves.
pub open spec fn message_outcome(
    run_id: Seq<u8>,
    session_id: Seq<u8>,
    trace_id: Seq<u8>,
    pre: Map<u64, (Vec<u8>, u64)>,
    post: Map<u64, (Vec<u8>, u64)>,
    event_id: u64,
    observed_ts_ms: u64,
    direction: StreamDirection,
    msg: JsonRpcMessageV,
    now_ms: u64,
    r: Option<McpLog>,
) -> bool {
    match (direction, msg) {
        (StreamDirection::Outbound, JsonRpcMessageV::Request(q)) => {
            &&& r matches Some(log)
            &&& log@.run_id == run_id
            &&& log@.event_id == event_id
            &&& log@.observed_ts_ms == observed_ts_ms
            &&& log@.timestamp == now_ms
            &&& log@.direction == StreamDirection::Outbound
            &&& log@.method == Some(q.method)
            &&& log@.request_id == q.id
            &&& log@.latency_ms is None
            &&& log@.payload == q.payload
            &&& log@.session_id == session_id
            &&& log@.trace_id == trace_id
            &&& span_ok(log@.span_id)
            &&& log@.parent_span_id is None
            &&& log_wf(log@)
            &&& match q.id {
                Some(id) => exists|p: (Vec<u8>, u64)|
                    p.0@ == log@.span_id && p.1 == now_ms && post == #[trigger] pre.insert(id, p),
                None => post == pre,
            }
        },
        (StreamDirection::Inbound, JsonRpcMessageV::Response(p)) => {
            &&& r matches Some(log)
            &&& log@.run_id == run_id
            &&& log@.event_id == event_id
            &&& log@.observed_ts_ms == observed_ts_ms
            &&& log@.timestamp == now_ms
            &&& log@.direction == StreamDirection::Inbound
            &&& log@.method is None
            &&& log@.request_id == p.id
            &&& log@.payload == p.payload
            &&& log@.session_id == session_id
            &&& log@.trace_id == trace_id
            &&& log@.parent_span_id is None
            &&& log_wf(log@)
            &&& match p.id {
                Some(id) => {
                    if pre.contains_key(id) {
                        &&& log@.latency_ms == Some(latency_of(now_ms, pre[id].1))
                        &&& log@.span_id == pre[id].0@
                        &&& post == pre.remove(id)
                    } else {
                        &&& log@.latency_ms is None
                        &&& span_ok(log@.span_id)
                        &&& post == pre
                    }
                },
                None => {
                    &&& log@.latency_ms is None
                    &&& span_ok(log@.span_id)
                    &&& post == pre
                },
            }
        },
        _ => r is None && post == pre,
    }
}

/// The parser's state: the identity it stamps onto records and the
/// table of outstanding requests.
pub struct Parser {
    pub run_id: Vec<u8>,
    pub session_id: Vec<u8>,
    pub trace_id: Vec<u8>,
    /// request id -> (span id, start time in ms)
    pub pending: HashMap<u64, (Vec<u8>, u64)>,
}

impl Parser {
    /// The parser's identity fields are usable string content, and
    /// every span stored in the pending table is a proper span id.
    pub open spec fn wf(self) -> bool {
        &&& str_content_ok(self.run_id@)
        &&& str_content_ok(self.session_id@)
        &&& str_content_ok(self.trace_id@)
        &&& forall|k: u64|
            self.pending@.contains_key(k) ==> span_ok(#[trigger] self.pending@[k].0@)
    }

    pub fn new(run_id: Vec<u8>, session_id: Vec<u8>, trace_id: Vec<u8>) -> (r: Parser)
        requires
            str_content_ok(run_id@),
            str_content_ok(session_id@),
            str_content_ok(trace_id@),
        ensures
            r.wf(),
            r.run_id@ == run_id@,
            r.session_id@ == session_id@,
            r.trace_id@ == trace_id@,
            r.pending@ == Map::<u64, (Vec<u8>, u64)>::empty(),
    {
        Parser { run_id, session_id, trace_id, pending: HashMap::new() }
    }

    /// Handles one classified message: requests open a span (and,
    /// when they carry an id, a pending entry); responses close the
    /// matching pending entry and carry its span and latency; a
    /// request seen inbound or a response seen outbound is dropped.
    pub fn process_message(
        &mut self,
        event_id: u64,
        observed_ts_ms: u64,
        direction: StreamDirection,
        message: JsonRpcMessage,
        now_ms: u64,
    ) -> (r: Option<McpLog>)
        requires
            old(self).wf(),
            (message@ matches JsonRpcMessageV::Request(q) ==> str_content_ok(q.method)),
            wf_json(
                match message@ {
                    JsonRpcMessageV::Request(q) => q.payload,
                    JsonRpcMessageV::Response(p) => p.payload,
                },
            ),
        ensures
            final(self).wf(),
            final(self).run_id@ == old(self).run_id@,
            final(self).session_id@ == old(self).session_id@,
            final(self).trace_id@ == old(self).trace_id@,
            message_outcome(
                old(self).run_id@,
                old(self).session_id@,
                old(self).trace_id@,
                old(self).pending@,
                final(self).pending@,
                event_id,
                observed_ts_ms,
                direction,
                message@,
                now_ms,
                r,
            ),
    {
        match (direction, message) {
            (StreamDirection::Outbound, JsonRpcMessage::Request(req)) => {
                let span_id = new_span();
                match req.id {
                    Some(id) => {
                        let span_copy = copy_bytes(&span_id);
                        let ghost p = (span_copy, now_ms);
                        self.pending.insert(id, (span_copy, now_ms));
                        proof {
                            assert(self.pending@ == old(self).pending@.insert(id, p));
                            assert(p.0@ == span_id@ && p.1 == now_ms);
                        }
                    },
                    None => {},
                }
                proof {
                    lemma_plain_str_ok(Seq::<u8>::empty());
                }
                Some(
                    McpLog {
                        run_id: copy_bytes(&self.run_id),
                        event_id,
                        observed_ts_ms,
                        timestamp: now_ms,
                        direction: StreamDirection::Outbound,
                        method: Some(req.method),
                        request_id: req.id,
                        latency_ms: None,
                        payload: req.payload,
                        session_id: copy_bytes(&self.session_id),
                        trace_id: copy_bytes(&self.trace_id),
                        span_id,
                        parent_span_id: None,
                    },
                )
            },
            (StreamDirection::Inbound, JsonRpcMessage::Response(resp)) => {
                let (span_id, latency_ms) = match resp.id {
                    Some(id) => {
                        match self.pending.remove(&id) {
                            Some((span, start)) => {
                                let lat = if now_ms >= start {
                                    now_ms - start
                                } else {
                                    0
                                };
                                (span, Some(lat))
                            },
                            None => {
                                proof {
                                    assert(self.pending@ =~= old(self).pending@);
                                }
                                (new_span(), None)
                            },
                        }
                    },
                    None => (new_span(), None),
                };
                Some(
                    McpLog {
                        run_id: copy_bytes(&self.run_id),
                        event_id,
                        observed_ts_ms,
                        timestamp: now_ms,
                        direction: StreamDirection::Inbound,
                        method: None,
                        request_id: resp.id,
                        latency_ms,
                        payload: resp.payload,
                        session_id: copy_bytes(&self.session_id),
                        trace_id: copy_bytes(&self.trace_id),
                        span_id,
                        parent_span_id: None,
                    },
                )
            },
            _ => None,
        }
    }

    /// Handles one ordered tap: parses the bytes as JSON, classifies
    /// them, and emits the structured record; non-JSON or non-message
    /// taps are dropped without touching the pending table.  A tap
    /// whose bytes are the canonical serialization of a JSON value
    /// behaves exactly as `process_message` on its classification.
    pub fn process_tap(&mut self, ev: &TapEvent, now_ms: u64) -> (r: Option<McpLog>)
        requires
            old(self).wf(),
        ensures
            final(self).wf(),
            final(self).run_id@ == old(self).run_id@,
            final(self).session_id@ == old(self).session_id@,
            final(self).trace_id@ == old(self).trace_id@,
            r matches Some(log) ==> log_wf(log@) && log@.run_id == old(self).run_id@
                && log@.event_id == ev.event_id && log@.observed_ts_ms == ev.observed_ts_ms
                && log@.direction == ev.direction,
            r is None ==> final(self).pending@ == old(self).pending@,
            forall|w: Jv| wf_json(w) && ev.bytes@ == #[trigger] ser_value(w) ==> (
            match classify_spec(w) {
                Some(msg) => message_outcome(
                    old(self).run_id@,
                    old(self).session_id@,
                    old(self).trace_id@,
                    old(self).pending@,
                    final(self).pending@,
                    ev.event_id,
                    ev.observed_ts_ms,
                    ev.direction,
                    msg,
                    now_ms,
                    r,
                ),
                None => r is None && final(self).pending@ == old(self).pending@,
            }),
    {
        let v = match parse_json(&ev.bytes) {
            Some(v) => v,
            None => {
                return None;
            },
        };
        let ghost vw = v.deep_view();
        let msg = match classify_message(v) {
            Some(m) => m,
            None => {
                proof {
                    assert forall|w: Jv|
                        wf_json(w) && ev.bytes@ == #[trigger] ser_value(w) implies classify_spec(
                        w,
                    ) is None by {
                        assert(vw == w);
                    }
                }
                return None;
            },
        };
        proof {
            if msg@ matches JsonRpcMessageV::Request(q) {
                let mv = vw->Obj_0;
                lemma_obj_first_wf(mv, k_method());
            }
        }
        let r = self.process_message(ev.event_id, ev.observed_ts_ms, ev.direction, msg, now_ms);
        proof {
            assert forall|w: Jv|
                wf_json(w) && ev.bytes@ == #[trigger] ser_value(w) implies (match classify_spec(w) {
                Some(m2) => message_outcome(
                    old(self).run_id@,
                    old(self).session_id@,
                    old(self).trace_id@,
                    old(self).pending@,
                    self.pending@,
                    ev.event_id,
                    ev.observed_ts_ms,
                    ev.direction,
                    m2,
                    now_ms,
                    r,
                ),
                None => r is None && self.pending@ == old(self).pending@,
            }) by {
                assert(vw == w);
                assert(classify_spec(w) == Some(msg@));
            }
        }
        r
    }
}

/// In a well-formed object, any member value found by key is itself
/// well-formed.
pub proof fn lemma_obj_first_wf(m: Seq<(Seq<u8>, Jv)>, k: Seq<u8>)
    requires
        crate::json::wf_members(m),
    ensures
        obj_first(m, k) matches Some(v) ==> wf_json(v),
    decreases m.len(),
{
    if m.len() > 0 && m[0].0 != k {
        lemma_obj_first_wf(m.drop_first(), k);
    }
}


impl McpLog {
    /// Builds the structured record for one classified message: a
    /// request contributes its method and id, a response only its
    /// id; the payload is the message itself; the timestamp is the
    /// emit time.
    pub fn from_message(
        run_id: Vec<u8>,
        event_id: u64,
        observed_ts_ms: u64,
        direction: StreamDirection,
        message: JsonRpcMessage,
        latency_ms: Option<u64>,
        session_id: &Vec<u8>,
        trace_id: &Vec<u8>,
        span_id: Vec<u8>,
        parent_span_id: Option<Vec<u8>>,
        timestamp: u64,
    ) -> (r: McpLog)
        ensures
            r@.run_id == run_id@,
            r@.event_id == event_id,
            r@.observed_ts_ms == observed_ts_ms,
            r@.timestamp == timestamp,
            r@.direction == direction,
            r@.method == (match message@ {
                JsonRpcMessageV::Request(q) => Some(q.method),
                JsonRpcMessageV::Response(_) => None::<Seq<u8>>,
            }),
            r@.request_id == (match message@ {
                JsonRpcMessageV::Request(q) => q.id,
                JsonRpcMessageV::Response(p) => p.id,
            }),
            r@.latency_ms == latency_ms,
            r@.payload == (match message@ {
                JsonRpcMessageV::Request(q) => q.payload,
                JsonRpcMessageV::Response(p) => p.payload,
            }),
            r@.session_id == session_id@,
            r@.trace_id == trace_id@,
            r@.span_id == span_id@,
            r@.parent_span_id == view_opt_bytes(parent_span_id),
    {
        let (method, request_id, payload) = match message {
            JsonRpcMessage::Request(req) => (Some(req.method), req.id, req.payload),
            JsonRpcMessage::Response(resp) => (None, resp.id, resp.payload),
        };
        McpLog {
            run_id,
            event_id,
            observed_ts_ms,
            timestamp,
            direction,
            method,
            request_id,
            latency_ms,
            payload,
            session_id: copy_bytes(session_id),
            trace_id: copy_bytes(trace_id),
            span_id,
            parent_span_id,
        }
    }
}

} // verus!
