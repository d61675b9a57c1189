//! The event types flowing through the pipeline: raw taps, ordered
//! tap events, structured log records, and the sequencer that assigns
//! the total order.
use vstd::prelude::*;

use crate::json::{Jv, JsonValue, str_content_ok, wf_json};

verus! {

#[derive(Clone, Copy, PartialEq, Eq, Structural, Debug)]
pub enum StreamDirection {
    /// From the child's stdout: responses.
    Inbound,
    /// From the parent's stdin: requests.
    Outbound,
}

/// A raw observed byte line; no ordering decided yet.
pub struct RawTap {
    pub direction: StreamDirection,
    pub bytes: Vec<u8>,
    pub observed_ts_ms: u64,
}

/// An ordered tap: the sequencer has assigned `event_id`.
pub struct TapEvent {
    pub event_id: u64,
    pub direction: StreamDirection,
    pub bytes: Vec<u8>,
    pub observed_ts_ms: u64,
}

/// The single source of ordering: assigns dense, monotonic event ids
/// starting at 1, in arrival order.
pub struct Sequencer {
    pub next_id: u64,
}

impl Sequencer {
    pub fn new() -> (r: Sequencer)
        ensures
            r.next_id == 1,
    {
        Sequencer { next_id: 1 }
    }

    /// Stamps the next event id onto a raw tap.  Output order is
    /// input order; ids are dense and monotonic.
    pub fn assign(&mut self, tap: RawTap) -> (r: TapEvent)
        requires
            old(self).next_id < u64::MAX,
        ensures
            r.event_id == old(self).next_id,
            final(self).next_id == old(self).next_id + 1,
            r.direction == tap.direction,
            r.bytes@ == tap.bytes@,
            r.observed_ts_ms == tap.observed_ts_ms,
    {
        let id = self.next_id;
        self.next_id = self.next_id + 1;
        TapEvent { event_id: id, direction: tap.direction, bytes: tap.bytes, observed_ts_ms: tap.observed_ts_ms }
    }
}

/// Relies on `std::time::SystemTime::now` and `duration_since`:
/// milliseconds since the Unix epoch by the wall clock; nothing is
/// promised of the value.
#[verifier::external_body]
pub fn current_timestamp_ms() -> u64 {
    std::time::SystemTime::now()
        .duration_since(std::time::SystemTime::UNIX_EPOCH)
        .unwrap_or_default()
        .as_millis() as u64
}

/// The mathematical value of a structured log record.
pub struct McpLogV {
    pub run_id: Seq<u8>,
    pub event_id: u64,
    pub observed_ts_ms: u64,
    pub timestamp: u64,
    pub direction: StreamDirection,
    pub method: Option<Seq<u8>>,
    pub request_id: Option<u64>,
    pub latency_ms: Option<u64>,
    pub payload: Jv,
    pub session_id: Seq<u8>,
    pub trace_id: Seq<u8>,
    pub span_id: Seq<u8>,
    pub parent_span_id: Option<Seq<u8>>,
}

/// One structured record per JSON-RPC message, as appended to the
/// audit log.  Textual fields hold UTF-8 bytes.
pub struct McpLog {
    /// Identifier of this run.
    pub run_id: Vec<u8>,
    /// Canonical ordering assigned by the sequencer.
    pub event_id: u64,
    /// When the bytes were observed (source of truth for ordering).
    pub observed_ts_ms: u64,
    /// When the structured record was emitted.
    pub timestamp: u64,
    pub direction: StreamDirection,
    pub method: Option<Vec<u8>>,
    pub request_id: Option<u64>,
    pub latency_ms: Option<u64>,
    pub payload: JsonValue,
    pub session_id: Vec<u8>,
    pub trace_id: Vec<u8>,
    pub span_id: Vec<u8>,
    pub parent_span_id: Option<Vec<u8>>,
}

pub open spec fn view_opt_bytes(o: Option<Vec<u8>>) -> Option<Seq<u8>> {
    match o {
        Some(v) => Some(v@),
        None => None,
    }
}

impl View for McpLog {
    type V = McpLogV;

    open spec fn view(&self) -> McpLogV {
        McpLogV {
            run_id: self.run_id@,
            event_id: self.event_id,
            observed_ts_ms: self.observed_ts_ms,
            timestamp: self.timestamp,
            direction: self.direction,
            method: view_opt_bytes(self.method),
            request_id: self.request_id,
            latency_ms: self.latency_ms,
            payload: self.payload.deep_view(),
            session_id: self.session_id@,
            trace_id: self.trace_id@,
            span_id: self.span_id@,
            parent_span_id: view_opt_bytes(self.parent_span_id),
        }
    }
}

/// Well-formedness of a log record: every textual field is valid
/// string content and the payload tree is well-formed, so the record
/// can be framed as JSON.
pub open spec fn log_wf(l: McpLogV) -> bool {
    &&& str_content_ok(l.run_id)
    &&& (l.method matches Some(m) ==> str_content_ok(m))
    &&& wf_json(l.payload)
    &&& str_content_ok(l.session_id)
    &&& str_content_ok(l.trace_id)
    &&& str_content_ok(l.span_id)
    &&& (l.parent_span_id matches Some(p) ==> str_content_ok(p))
}

} // verus!
