//! Core of a distributed-tracing sidecar collector.
//!
//! The library ingests a length-prefixed MessagePack event stream emitted by
//! in-process tracers, assembles partial spans into whole traces, and
//! re-encodes completed traces in the downstream agent wire formats (v0.4
//! keyed maps and v0.5 string-deduplicated tuples).

use vstd::prelude::*;

pub mod client;
pub mod exporting;
pub mod interning;
pub mod laws;
pub mod msgpack;
pub mod numbers;
pub mod processing;
pub mod tracing;

use crate::client::BufferClient;
use crate::exporting::agent_v04::{enc_traces_v04, AgentExporter};
use crate::exporting::traces_encodable;
use crate::processing::{dec_payload, spec_apply_events, Processor};
use crate::tracing::{spec_finished_part, TraceV};

verus! {

/// Errors surfaced by the core: any codec violation, truncation, bad UTF-8,
/// unexpected MessagePack type, or string-table index out of range.
#[derive(Clone, Copy, Debug, PartialEq, Eq, Structural)]
pub enum Error {
    MalformedInput,
}

/// The embedded-mode entry point: run one payload through a fresh processor,
/// flush, and hand back the finished traces in the keyed agent encoding via
/// the buffer client. An empty flush yields an empty buffer.
pub fn collect(payload: &Vec<u8>) -> (r: Result<Vec<u8>, Error>)
    ensures
        match dec_payload(payload@) {
            None => r == Err::<Vec<u8>, Error>(Error::MalformedInput),
            Some(evs) => ({
                let fin = spec_finished_part(
                    spec_apply_events(Seq::<(u64, TraceV)>::empty(), evs),
                );
                if fin.len() == 0 {
                    r matches Ok(b) && b@ == Seq::<u8>::empty()
                } else if traces_encodable(fin) {
                    r matches Ok(b) && b@ == enc_traces_v04(fin)
                } else {
                    r == Err::<Vec<u8>, Error>(Error::MalformedInput)
                }
            }),
        },
{
    let mut processor = Processor::new();
    match processor.process(payload) {
        Ok(()) => {},
        Err(e) => {
            return Err(e);
        },
    }
    let finished = processor.flush();
    let exporter = AgentExporter::new();
    let mut cl = BufferClient::new();
    match exporter.export(&finished) {
        Err(e) => Err(e),
        Ok(None) => Ok(Vec::new()),
        Ok(Some(bytes)) => {
            cl.request(bytes);
            match cl.on_response() {
                Some(b) => Ok(b),
                None => Ok(Vec::new()),
            }
        },
    }
}

} // verus!
