//! The keyed downstream encoder: a batch of traces as a MessagePack array
//! of arrays of spans, each span a map with literal string keys. The span
//! map has twelve keys when the span carries a type and eleven otherwise,
//! and the wire duration is always the in-memory duration plus one.

use vstd::prelude::*;
use vstd::utf8::{encode_utf8, is_ascii_chars, is_ascii_chars_encode_utf8};

use crate::exporting::{
    check_traces_encodable, lemma_concat_step, span_encodable, str_fits, trace_encodable,
    traces_encodable, wire_duration,
};
use crate::msgpack::{
    enc_array_len, enc_f64_bits, enc_map_len, enc_str, enc_uint, write_array_len, write_f64_bits,
    write_map_len, write_str, write_uint,
};
use crate::tracing::{Meta, Metrics, Span, SpanV, Trace, TraceV, Traces};
use crate::Error;

verus! {

/// The encoding of the string-valued tag entries, in order.
pub open spec fn enc_meta_entries_v04(entries: Seq<(Seq<char>, Seq<char>)>) -> Seq<u8>
    decreases entries.len(),
{
    if entries.len() == 0 {
        Seq::empty()
    } else {
        enc_meta_entries_v04(entries.drop_last()) + enc_str(entries.last().0) + enc_str(
            entries.last().1,
        )
    }
}

/// The encoding of the numeric tag entries, in order.
pub open spec fn enc_metrics_entries_v04(entries: Seq<(Seq<char>, u64)>) -> Seq<u8>
    decreases entries.len(),
{
    if entries.len() == 0 {
        Seq::empty()
    } else {
        enc_metrics_entries_v04(entries.drop_last()) + enc_str(entries.last().0) + enc_f64_bits(
            entries.last().1,
        )
    }
}

/// The encoding of one span: a map of eleven literal keys, or twelve when
/// the span carries a type; the wire duration is the duration plus one.
#[verifier::opaque]
pub open spec fn enc_span_v04(s: SpanV) -> Seq<u8> {
    (if s.span_type.len() > 0 {
        enc_map_len(12) + enc_str("type"@) + enc_str(s.span_type)
    } else {
        enc_map_len(11)
    }) + enc_str("trace_id"@) + enc_uint(s.trace_id) + enc_str("span_id"@) + enc_uint(s.span_id)
        + enc_str("parent_id"@) + enc_uint(s.parent_id) + enc_str("name"@) + enc_str(s.name)
        + enc_str("resource"@) + enc_str(s.resource) + enc_str("service"@) + enc_str(s.service)
        + enc_str("error"@) + enc_uint(s.error) + enc_str("start"@) + enc_uint(s.start) + enc_str(
        "duration"@,
    ) + enc_uint(wire_duration(s.duration)) + enc_str("meta"@) + enc_map_len(s.meta.len() as u32)
        + enc_meta_entries_v04(s.meta) + enc_str("metrics"@) + enc_map_len(s.metrics.len() as u32)
        + enc_metrics_entries_v04(s.metrics)
}

/// The encoding of the spans of one trace, in order.
pub open spec fn enc_spans_v04(spans: Seq<SpanV>) -> Seq<u8>
    decreases spans.len(),
{
    if spans.len() == 0 {
        Seq::empty()
    } else {
        enc_spans_v04(spans.drop_last()) + enc_span_v04(spans.last())
    }
}

/// The encoding of one trace: an array of its spans.
pub open spec fn enc_trace_v04(t: TraceV) -> Seq<u8> {
    enc_array_len(t.spans.len() as u32) + enc_spans_v04(t.spans)
}

/// The encoding of the batch entries, in order.
pub open spec fn enc_traces_entries_v04(m: Seq<(u64, TraceV)>) -> Seq<u8>
    decreases m.len(),
{
    if m.len() == 0 {
        Seq::empty()
    } else {
        enc_traces_entries_v04(m.drop_last()) + enc_trace_v04(m.last().1)
    }
}

/// The encoding of a whole batch: an array of traces.
pub open spec fn enc_traces_v04(m: Seq<(u64, TraceV)>) -> Seq<u8> {
    enc_array_len(m.len() as u32) + enc_traces_entries_v04(m)
}

/// The literal span keys fit the wire: they are short ASCII strings.
pub proof fn v04_keys_fit()
    ensures
        encode_utf8("type"@).len() == "type"@.len() == 4,
        encode_utf8("trace_id"@).len() == "trace_id"@.len() == 8,
        encode_utf8("span_id"@).len() == "span_id"@.len() == 7,
        encode_utf8("parent_id"@).len() == "parent_id"@.len() == 9,
        encode_utf8("name"@).len() == "name"@.len() == 4,
        encode_utf8("resource"@).len() == "resource"@.len() == 8,
        encode_utf8("service"@).len() == "service"@.len() == 7,
        encode_utf8("error"@).len() == "error"@.len() == 5,
        encode_utf8("start"@).len() == "start"@.len() == 5,
        encode_utf8("duration"@).len() == "duration"@.len() == 8,
        encode_utf8("meta"@).len() == "meta"@.len() == 4,
        encode_utf8("metrics"@).len() == "metrics"@.len() == 7,
{
    reveal_strlit("type");
    reveal_strlit("trace_id");
    reveal_strlit("span_id");
    reveal_strlit("parent_id");
    reveal_strlit("name");
    reveal_strlit("resource");
    reveal_strlit("service");
    reveal_strlit("error");
    reveal_strlit("start");
    reveal_strlit("duration");
    reveal_strlit("meta");
    reveal_strlit("metrics");
    assert(is_ascii_chars("type"@));
    is_ascii_chars_encode_utf8("type"@);
    assert(is_ascii_chars("trace_id"@));
    is_ascii_chars_encode_utf8("trace_id"@);
    assert(is_ascii_chars("span_id"@));
    is_ascii_chars_encode_utf8("span_id"@);
    assert(is_ascii_chars("parent_id"@));
    is_ascii_chars_encode_utf8("parent_id"@);
    assert(is_ascii_chars("name"@));
    is_ascii_chars_encode_utf8("name"@);
    assert(is_ascii_chars("resource"@));
    is_ascii_chars_encode_utf8("resource"@);
    assert(is_ascii_chars("service"@));
    is_ascii_chars_encode_utf8("service"@);
    assert(is_ascii_chars("error"@));
    is_ascii_chars_encode_utf8("error"@);
    assert(is_ascii_chars("start"@));
    is_ascii_chars_encode_utf8("start"@);
    assert(is_ascii_chars("duration"@));
    is_ascii_chars_encode_utf8("duration"@);
    assert(is_ascii_chars("meta"@));
    is_ascii_chars_encode_utf8("meta"@);
    assert(is_ascii_chars("metrics"@));
    is_ascii_chars_encode_utf8("metrics"@);
}

/// The keyed agent encoder.
pub struct AgentExporter {}

impl AgentExporter {
    pub fn new() -> (r: AgentExporter) {
        AgentExporter {  }
    }

    /// Append the `"meta"` key and the map of string-valued tags.
    #[verifier::loop_isolation(false)]
    pub fn encode_meta(&self, wr: &mut Vec<u8>, map: &Meta)
        requires
            map@.len() <= u32::MAX,
            forall|i: int|
                0 <= i < map@.len() ==> str_fits((#[trigger] map@[i]).0) && str_fits(map@[i].1),
        ensures
            final(wr)@ == old(wr)@ + enc_str("meta"@) + enc_map_len(map@.len() as u32)
                + enc_meta_entries_v04(map@),
    {
        proof {
            v04_keys_fit();
        }
        write_str(wr, "meta");
        write_map_len(wr, map.len() as u32);
        let ghost base = wr@;
        let mut i: usize = 0;
        while i < map.pairs.len()
            invariant
                i <= map@.len(),
                wr@ == base + enc_meta_entries_v04(map@.take(i as int)),
            decreases map@.len() - i,
        {
            proof {
                assert(map@[i as int].0 == map.pairs@[i as int].0@);
                assert(map@[i as int].1 == map.pairs@[i as int].1@);
            }
            write_str(wr, map.pairs[i].0.as_str());
            write_str(wr, map.pairs[i].1.as_str());
            proof {
                assert(map@.take(i + 1).drop_last() =~= map@.take(i as int));
                assert(map@.take(i + 1).last() == map@[i as int]);
                assert(wr@ =~= base + enc_meta_entries_v04(map@.take(i + 1)));
            }
            i = i + 1;
        }
        proof {
            assert(map@.take(map@.len() as int) =~= map@);
        }
    }

    /// Append the `"metrics"` key and the map of numeric tags.
    #[verifier::loop_isolation(false)]
    pub fn encode_metrics(&self, wr: &mut Vec<u8>, map: &Metrics)
        requires
            map@.len() <= u32::MAX,
            forall|i: int| 0 <= i < map@.len() ==> str_fits((#[trigger] map@[i]).0),
        ensures
            final(wr)@ == old(wr)@ + enc_str("metrics"@) + enc_map_len(map@.len() as u32)
                + enc_metrics_entries_v04(map@),
    {
        proof {
            v04_keys_fit();
        }
        write_str(wr, "metrics");
        write_map_len(wr, map.len() as u32);
        let ghost base = wr@;
        let mut i: usize = 0;
        while i < map.pairs.len()
            invariant
                i <= map@.len(),
                wr@ == base + enc_metrics_entries_v04(map@.take(i as int)),
            decreases map@.len() - i,
        {
            proof {
                assert(map@[i as int].0 == map.pairs@[i as int].0@);
                assert(map@[i as int].1 == map.pairs@[i as int].1);
            }
            write_str(wr, map.pairs[i].0.as_str());
            write_f64_bits(wr, map.pairs[i].1);
            proof {
                assert(map@.take(i + 1).drop_last() =~= map@.take(i as int));
                assert(map@.take(i + 1).last() == map@[i as int]);
                assert(wr@ =~= base + enc_metrics_entries_v04(map@.take(i + 1)));
            }
            i = i + 1;
        }
        proof {
            assert(map@.take(map@.len() as int) =~= map@);
        }
    }

    /// Append one span as a keyed map.
    fn encode_span(&self, wr: &mut Vec<u8>, span: &Span)
        requires
            span_encodable(span@),
        ensures
            final(wr)@ == old(wr)@ + enc_span_v04(span@),
    {
        proof {
            v04_keys_fit();
        }
        let ghost s = span@;
        let ghost mut acc: Seq<u8> = Seq::empty();
        if !span.span_type.as_str().is_empty() {
            write_map_len(wr, 12);
            write_str(wr, "type");
            write_str(wr, span.span_type.as_str());
            proof {
                acc = enc_map_len(12) + enc_str("type"@) + enc_str(s.span_type);
                assert(wr@ =~= old(wr)@ + acc);
            }
        } else {
            write_map_len(wr, 11);
            proof {
                acc = enc_map_len(11);
                assert(wr@ =~= old(wr)@ + acc);
            }
        }
        let ghost w1 = wr@;
        write_str(wr, "trace_id");
        proof {
            lemma_concat_step(w1, old(wr)@, acc, enc_str("trace_id"@));
            acc = acc + enc_str("trace_id"@);
        }
        let ghost w2 = wr@;
        write_uint(wr, span.trace_id);
        proof {
            lemma_concat_step(w2, old(wr)@, acc, enc_uint(s.trace_id));
            acc = acc + enc_uint(s.trace_id);
        }
        let ghost w3 = wr@;
        write_str(wr, "span_id");
        proof {
            lemma_concat_step(w3, old(wr)@, acc, enc_str("span_id"@));
            acc = acc + enc_str("span_id"@);
        }
        let ghost w4 = wr@;
        write_uint(wr, span.span_id);
        proof {
            lemma_concat_step(w4, old(wr)@, acc, enc_uint(s.span_id));
            acc = acc + enc_uint(s.span_id);
        }
        let ghost w5 = wr@;
        write_str(wr, "parent_id");
        proof {
            lemma_concat_step(w5, old(wr)@, acc, enc_str("parent_id"@));
            acc = acc + enc_str("parent_id"@);
        }
        let ghost w6 = wr@;
        write_uint(wr, span.parent_id);
        proof {
            lemma_concat_step(w6, old(wr)@, acc, enc_uint(s.parent_id));
            acc = acc + enc_uint(s.parent_id);
        }
        let ghost w7 = wr@;
        write_str(wr, "name");
        proof {
            lemma_concat_step(w7, old(wr)@, acc, enc_str("name"@));
            acc = acc + enc_str("name"@);
        }
        let ghost w8 = wr@;
        write_str(wr, span.name.as_str());
        proof {
            lemma_concat_step(w8, old(wr)@, acc, enc_str(s.name));
            acc = acc + enc_str(s.name);
        }
        let ghost w9 = wr@;
        write_str(wr, "resource");
        proof {
            lemma_concat_step(w9, old(wr)@, acc, enc_str("resource"@));
            acc = acc + enc_str("resource"@);
        }
        let ghost w10 = wr@;
        write_str(wr, span.resource.as_str());
        proof {
            lemma_concat_step(w10, old(wr)@, acc, enc_str(s.resource));
            acc = acc + enc_str(s.resource);
        }
        let ghost w11 = wr@;
        write_str(wr, "service");
        proof {
            lemma_concat_step(w11, old(wr)@, acc, enc_str("service"@));
            acc = acc + enc_str("service"@);
        }
        let ghost w12 = wr@;
        write_str(wr, span.service.as_str());
        proof {
            lemma_concat_step(w12, old(wr)@, acc, enc_str(s.service));
            acc = acc + enc_str(s.service);
        }
        let ghost w13 = wr@;
        write_str(wr, "error");
        proof {
            lemma_concat_step(w13, old(wr)@, acc, enc_str("error"@));
            acc = acc + enc_str("error"@);
        }
        let ghost w14 = wr@;
        write_uint(wr, span.error);
        proof {
            lemma_concat_step(w14, old(wr)@, acc, enc_uint(s.error));
            acc = acc + enc_uint(s.error);
        }
        let ghost w15 = wr@;
        write_str(wr, "start");
        proof {
            lemma_concat_step(w15, old(wr)@, acc, enc_str("start"@));
            acc = acc + enc_str("start"@);
        }
        let ghost w16 = wr@;
        write_uint(wr, span.start);
        proof {
            lemma_concat_step(w16, old(wr)@, acc, enc_uint(s.start));
            acc = acc + enc_uint(s.start);
        }
        let ghost w17 = wr@;
        write_str(wr, "duration");
        proof {
            lemma_concat_step(w17, old(wr)@, acc, enc_str("duration"@));
            acc = acc + enc_str("duration"@);
        }
        let d: u64 = if span.duration < u64::MAX {
            span.duration + 1
        } else {
            span.duration
        };
        let ghost w18 = wr@;
        write_uint(wr, d);
        proof {
            lemma_concat_step(w18, old(wr)@, acc, enc_uint(wire_duration(s.duration)));
            acc = acc + enc_uint(wire_duration(s.duration));
        }
        let ghost w19 = wr@;
        self.encode_meta(wr, &span.meta);
        proof {
            lemma_concat_step(w19, old(wr)@, acc, enc_str("meta"@));
            lemma_concat_step(
                w19 + enc_str("meta"@),
                old(wr)@,
                acc + enc_str("meta"@),
                enc_map_len(s.meta.len() as u32),
            );
            lemma_concat_step(
                w19 + enc_str("meta"@) + enc_map_len(s.meta.len() as u32),
                old(wr)@,
                acc + enc_str("meta"@) + enc_map_len(s.meta.len() as u32),
                enc_meta_entries_v04(s.meta),
            );
            acc = acc + enc_str("meta"@) + enc_map_len(s.meta.len() as u32)
                + enc_meta_entries_v04(s.meta);
        }
        let ghost w20 = wr@;
        self.encode_metrics(wr, &span.metrics);
        proof {
            lemma_concat_step(w20, old(wr)@, acc, enc_str("metrics"@));
            lemma_concat_step(
                w20 + enc_str("metrics"@),
                old(wr)@,
                acc + enc_str("metrics"@),
                enc_map_len(s.metrics.len() as u32),
            );
            lemma_concat_step(
                w20 + enc_str("metrics"@) + enc_map_len(s.metrics.len() as u32),
                old(wr)@,
                acc + enc_str("metrics"@) + enc_map_len(s.metrics.len() as u32),
                enc_metrics_entries_v04(s.metrics),
            );
            acc = acc + enc_str("metrics"@) + enc_map_len(s.metrics.len() as u32)
                + enc_metrics_entries_v04(s.metrics);
            reveal(enc_span_v04);
            assert(acc == enc_span_v04(s));
        }
    }

    /// Append one trace as an array of its spans.
    #[verifier::loop_isolation(false)]
    pub fn encode_trace(&self, wr: &mut Vec<u8>, trace: &Trace)
        requires
            trace_encodable(trace@),
        ensures
            final(wr)@ == old(wr)@ + enc_trace_v04(trace@),
    {
        write_array_len(wr, trace.spans.len() as u32);
        let ghost base = wr@;
        let mut i: usize = 0;
        while i < trace.spans.len()
            invariant
                i <= trace@.spans.len(),
                wr@ == base + enc_spans_v04(trace@.spans.take(i as int)),
            decreases trace@.spans.len() - i,
        {
            proof {
                assert(trace@.spans[i as int] == trace.spans@[i as int]@);
            }
            let ghost w0 = wr@;
            self.encode_span(wr, &trace.spans[i]);
            proof {
                lemma_concat_step(
                    w0,
                    base,
                    enc_spans_v04(trace@.spans.take(i as int)),
                    enc_span_v04(trace@.spans[i as int]),
                );
                assert(trace@.spans.take(i + 1).drop_last() =~= trace@.spans.take(i as int));
                assert(trace@.spans.take(i + 1).last() == trace@.spans[i as int]);
                assert(enc_spans_v04(trace@.spans.take(i + 1)) == enc_spans_v04(
                    trace@.spans.take(i as int),
                ) + enc_span_v04(trace@.spans[i as int]));
            }
            i = i + 1;
        }
        proof {
            assert(trace@.spans.take(trace@.spans.len() as int) =~= trace@.spans);
        }
    }

    /// Append a whole batch as an array of traces.
    #[verifier::rlimit(50)]
    #[verifier::loop_isolation(false)]
    pub fn encode_traces(&self, wr: &mut Vec<u8>, traces: &Traces)
        requires
            traces_encodable(traces@),
        ensures
            final(wr)@ == old(wr)@ + enc_traces_v04(traces@),
    {
        write_array_len(wr, traces.pairs.len() as u32);
        let ghost base = wr@;
        let mut i: usize = 0;
        while i < traces.pairs.len()
            invariant
                i <= traces@.len(),
                wr@ == base + enc_traces_entries_v04(traces@.take(i as int)),
            decreases traces@.len() - i,
        {
            proof {
                assert(traces@[i as int].1 == traces.pairs@[i as int].1@);
            }
            let ghost w0 = wr@;
            self.encode_trace(wr, &traces.pairs[i].1);
            proof {
                lemma_concat_step(
                    w0,
                    base,
                    enc_traces_entries_v04(traces@.take(i as int)),
                    enc_trace_v04(traces@[i as int].1),
                );
                assert(traces@.take(i + 1).drop_last() =~= traces@.take(i as int));
                assert(traces@.take(i + 1).last() == traces@[i as int]);
                assert(enc_traces_entries_v04(traces@.take(i + 1)) == enc_traces_entries_v04(
                    traces@.take(i as int),
                ) + enc_trace_v04(traces@[i as int].1));
            }
            i = i + 1;
        }
        proof {
            assert(traces@.take(traces@.len() as int) =~= traces@);
            lemma_concat_step(
                base,
                old(wr)@,
                enc_array_len(traces@.len() as u32),
                enc_traces_entries_v04(traces@),
            );
        }
    }

    /// Encode a batch for the downstream agent. An empty batch short-circuits
    /// to nothing; a batch holding a string or map beyond the 32-bit wire
    /// limits is refused as malformed.
    pub fn export(&self, traces: &Traces) -> (r: Result<Option<Vec<u8>>, Error>)
        ensures
            traces@.len() == 0 ==> r == Ok::<Option<Vec<u8>>, Error>(None),
            traces@.len() > 0 && traces_encodable(traces@) ==> (r matches Ok(Some(b)) && b@
                == enc_traces_v04(traces@)),
            traces@.len() > 0 && !traces_encodable(traces@) ==> r == Err::<
                Option<Vec<u8>>,
                Error,
            >(Error::MalformedInput),
    {
        if traces.len() == 0 {
            return Ok(None);
        }
        if !check_traces_encodable(traces) {
            return Err(Error::MalformedInput);
        }
        let mut wr: Vec<u8> = Vec::new();
        self.encode_traces(&mut wr, traces);
        proof {
            assert(wr@ =~= enc_traces_v04(traces@));
        }
        Ok(Some(wr))
    }
}

} // verus!
