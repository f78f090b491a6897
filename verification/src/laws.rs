//! Properties of the assembled system, stated and proved once over the
//! model: the counting invariants of traces, the shape of exported spans
//! and batches, and the string-table indirection of the interned encoding.

use vstd::prelude::*;

use crate::exporting::agent_v04::{
    enc_meta_entries_v04, enc_metrics_entries_v04, enc_span_v04, enc_spans_v04, enc_trace_v04,
    enc_traces_entries_v04, enc_traces_v04, v04_keys_fit,
};
use crate::exporting::agent_v05::{lemma_table_v05_props, span_in_table, spec_table_v05, tbl_pos};
use crate::exporting::{span_encodable, str_fits, trace_encodable, traces_encodable, wire_duration};
use crate::msgpack::{
    bytes_at, dec_array_len, dec_f64_bits, dec_map_len, dec_str, dec_uint, enc_array_len,
    enc_f64_bits, enc_map_len, enc_str, enc_uint, lemma_bytes_at_split, lemma_dec_array_len_at,
    lemma_dec_f64_bits_at, lemma_dec_map_len_at, lemma_dec_str_at, lemma_dec_uint_at,
};
use crate::processing::{spec_apply_event, EventV};
use crate::tracing::{
    entry_in, has_span, has_trace, lemma_parts_wf, spec_finished_part, trace_index_of, traces_wf,
    SpanV, TraceV,
};

verus! {

/// Every trace of a well-formed aggregate has counted at least one start
/// and holds no more spans than starts.
pub proof fn lemma_trace_counts(m: Seq<(u64, TraceV)>)
    requires
        traces_wf(m),
    ensures
        forall|i: int|
            0 <= i < m.len() ==> 1 <= (#[trigger] m[i]).1.started && m[i].1.spans.len()
                <= m[i].1.started,
{
}

/// Finish counts never pass start counts.
pub open spec fn counts_ok(m: Seq<(u64, TraceV)>) -> bool {
    forall|i: int| 0 <= i < m.len() ==> (#[trigger] m[i]).1.finished <= m[i].1.started
}

/// Applying one event keeps `finished <= started` on every trace, provided
/// a finish aimed at an existing span belongs to a trace that is not yet
/// complete. (A second finish for an already complete trace is the one
/// input that breaks the bound.)
pub proof fn lemma_counts_preserved(m: Seq<(u64, TraceV)>, e: EventV)
    requires
        counts_ok(m),
        match e {
            EventV::FinishSpan { trace_id, span_id, .. } => (has_trace(m, trace_id) && has_span(
                m[trace_index_of(m, trace_id)].1.spans,
                span_id,
            )) ==> m[trace_index_of(m, trace_id)].1.finished < m[trace_index_of(
                m,
                trace_id,
            )].1.started,
            _ => true,
        },
    ensures
        counts_ok(spec_apply_event(m, e)),
{
    let res = spec_apply_event(m, e);
    match e {
        EventV::StartSpan { span } => {
            assert forall|i: int|
                0 <= i < res.len() implies (#[trigger] res[i]).1.finished
                <= res[i].1.started by {
                if has_trace(m, span.trace_id) {
                    let ti = trace_index_of(m, span.trace_id);
                    if m[ti].1.started != u64::MAX && i == ti {
                    } else if i < m.len() {
                        assert(res[i] == m[i]);
                    }
                } else {
                    if i < m.len() {
                        assert(res[i] == m[i]);
                    }
                }
            }
        },
        EventV::FinishSpan { trace_id, span_id, finish, meta, metrics } => {
            assert forall|i: int|
                0 <= i < res.len() implies (#[trigger] res[i]).1.finished
                <= res[i].1.started by {
                if has_trace(m, trace_id) {
                    let ti = trace_index_of(m, trace_id);
                    if has_span(m[ti].1.spans, span_id) && i == ti {
                        assert(m[ti].1.finished < m[ti].1.started);
                    } else {
                        assert(res[i] == m[i]);
                    }
                } else {
                    assert(res[i] == m[i]);
                }
            }
        },
        EventV::AddTags { trace_id, span_id, meta, metrics } => {
            assert forall|i: int|
                0 <= i < res.len() implies (#[trigger] res[i]).1.finished
                <= res[i].1.started by {
                if has_trace(m, trace_id) {
                    let ti = trace_index_of(m, trace_id);
                    if has_span(m[ti].1.spans, span_id) && i == ti {
                        assert(res[i].1.started == m[i].1.started);
                        assert(res[i].1.finished == m[i].1.finished);
                    } else {
                        assert(res[i] == m[i]);
                    }
                } else {
                    assert(res[i] == m[i]);
                }
            }
        },
        EventV::AddError { trace_id, span_id, meta } => {
            assert forall|i: int|
                0 <= i < res.len() implies (#[trigger] res[i]).1.finished
                <= res[i].1.started by {
                if has_trace(m, trace_id) {
                    let ti = trace_index_of(m, trace_id);
                    if has_span(m[ti].1.spans, span_id) && i == ti {
                        assert(res[i].1.started == m[i].1.started);
                        assert(res[i].1.finished == m[i].1.finished);
                    } else {
                        assert(res[i] == m[i]);
                    }
                } else {
                    assert(res[i] == m[i]);
                }
            }
        },
    }
}

/// Exported spans leave the aggregate unchanged: in every flushed trace the
/// duration is nonnegative, and the start is positive whenever every span
/// of the aggregate recorded a positive start.
pub proof fn lemma_exported_spans(m: Seq<(u64, TraceV)>)
    requires
        traces_wf(m),
        forall|t: int, i: int|
            0 <= t < m.len() && 0 <= i < m[t].1.spans.len() ==> (#[trigger] m[t].1.spans[i]).start
                > 0,
    ensures
        forall|t: int, i: int|
            0 <= t < spec_finished_part(m).len() && 0 <= i
                < spec_finished_part(m)[t].1.spans.len() ==> (#[trigger] spec_finished_part(
                m,
            )[t].1.spans[i]).start > 0 && spec_finished_part(m)[t].1.spans[i].duration >= 0,
{
    lemma_parts_wf(m);
    let fin = spec_finished_part(m);
    assert forall|t: int, i: int|
        0 <= t < fin.len() && 0 <= i < fin[t].1.spans.len() implies (
    #[trigger] fin[t].1.spans[i]).start > 0 && fin[t].1.spans[i].duration >= 0 by {
        assert(entry_in(fin[t], m));
        let j = choose|j: int| 0 <= j < m.len() && m[j] == fin[t];
        assert(m[j].1.spans[i].start > 0);
    }
}

/// The head of a concatenation is the head of its first part.
proof fn lemma_first<A>(x: Seq<A>, y: Seq<A>)
    requires
        x.len() >= 1,
    ensures
        (x + y)[0] == x[0],
        (x + y).len() >= 1,
{
}

/// The first byte of a keyed span encoding declares a map of twelve entries
/// when the span carries a type and eleven otherwise.
#[verifier::rlimit(100)]
#[verifier::spinoff_prover]
pub proof fn lemma_v04_span_map_len(s: SpanV)
    ensures
        s.span_type.len() > 0 ==> (dec_map_len(enc_span_v04(s), 0) matches Some(p) && p.0 == 12),
        s.span_type.len() == 0 ==> (dec_map_len(enc_span_v04(s), 0) matches Some(p) && p.0 == 11),
{
    reveal(enc_span_v04);
    assert(0x80u8 | 12u8 == 0x8cu8) by (bit_vector);
    assert(0x80u8 | 11u8 == 0x8bu8) by (bit_vector);
    assert(0x8cu8 & 0x0fu8 == 12u8) by (bit_vector);
    assert(0x8bu8 & 0x0fu8 == 11u8) by (bit_vector);
    let h = if s.span_type.len() > 0 {
        enc_map_len(12) + enc_str("type"@) + enc_str(s.span_type)
    } else {
        enc_map_len(11)
    };
    if s.span_type.len() > 0 {
        lemma_first(enc_map_len(12), enc_str("type"@));
        lemma_first(enc_map_len(12) + enc_str("type"@), enc_str(s.span_type));
        assert(h[0] == 0x8cu8);
    } else {
        assert(h[0] == 0x8bu8);
    }
    let p1 = h + enc_str("trace_id"@);
    lemma_first(h, enc_str("trace_id"@));
    let p2 = p1 + enc_uint(s.trace_id);
    lemma_first(p1, enc_uint(s.trace_id));
    let p3 = p2 + enc_str("span_id"@);
    lemma_first(p2, enc_str("span_id"@));
    let p4 = p3 + enc_uint(s.span_id);
    lemma_first(p3, enc_uint(s.span_id));
    let p5 = p4 + enc_str("parent_id"@);
    lemma_first(p4, enc_str("parent_id"@));
    let p6 = p5 + enc_uint(s.parent_id);
    lemma_first(p5, enc_uint(s.parent_id));
    let p7 = p6 + enc_str("name"@);
    lemma_first(p6, enc_str("name"@));
    let p8 = p7 + enc_str(s.name);
    lemma_first(p7, enc_str(s.name));
    let p9 = p8 + enc_str("resource"@);
    lemma_first(p8, enc_str("resource"@));
    let p10 = p9 + enc_str(s.resource);
    lemma_first(p9, enc_str(s.resource));
    let p11 = p10 + enc_str("service"@);
    lemma_first(p10, enc_str("service"@));
    let p12 = p11 + enc_str(s.service);
    lemma_first(p11, enc_str(s.service));
    let p13 = p12 + enc_str("error"@);
    lemma_first(p12, enc_str("error"@));
    let p14 = p13 + enc_uint(s.error);
    lemma_first(p13, enc_uint(s.error));
    let p15 = p14 + enc_str("start"@);
    lemma_first(p14, enc_str("start"@));
    let p16 = p15 + enc_uint(s.start);
    lemma_first(p15, enc_uint(s.start));
    let p17 = p16 + enc_str("duration"@);
    lemma_first(p16, enc_str("duration"@));
    let p18 = p17 + enc_uint(wire_duration(s.duration));
    lemma_first(p17, enc_uint(wire_duration(s.duration)));
    let p19 = p18 + enc_str("meta"@);
    lemma_first(p18, enc_str("meta"@));
    let p20 = p19 + enc_map_len(s.meta.len() as u32);
    lemma_first(p19, enc_map_len(s.meta.len() as u32));
    let p21 = p20 + enc_meta_entries_v04(s.meta);
    lemma_first(p20, enc_meta_entries_v04(s.meta));
    let p22 = p21 + enc_str("metrics"@);
    lemma_first(p21, enc_str("metrics"@));
    let p23 = p22 + enc_map_len(s.metrics.len() as u32);
    lemma_first(p22, enc_map_len(s.metrics.len() as u32));
    let p24 = p23 + enc_metrics_entries_v04(s.metrics);
    lemma_first(p23, enc_metrics_entries_v04(s.metrics));
    assert(p24 == enc_span_v04(s));
    assert(enc_span_v04(s)[0] == h[0]);
}

/// Below the top of the 64-bit range, the wire duration is exactly the
/// in-memory duration plus one.
pub proof fn lemma_wire_duration(d: u64)
    requires
        d < u64::MAX,
    ensures
        wire_duration(d) == d + 1,
{
}

/// A string found in a table resolves back through its position to exactly
/// itself.
pub proof fn lemma_table_resolves(tbl: Seq<Seq<char>>, s: Seq<char>)
    requires
        tbl.contains(s),
    ensures
        0 <= tbl_pos(tbl, s) < tbl.len(),
        tbl[tbl_pos(tbl, s)] == s,
{
    let w = tbl_pos(tbl, s);
    assert(0 <= w < tbl.len() && tbl[w] == s);
}

/// A span read back through the string table of the interned encoding:
/// every index replaced by the table entry it names.
pub open spec fn rematerialize_span(s: SpanV, tbl: Seq<Seq<char>>) -> SpanV {
    SpanV {
        service: tbl[tbl_pos(tbl, s.service)],
        name: tbl[tbl_pos(tbl, s.name)],
        resource: tbl[tbl_pos(tbl, s.resource)],
        span_type: tbl[tbl_pos(tbl, s.span_type)],
        meta: Seq::new(
            s.meta.len(),
            |i: int| (tbl[tbl_pos(tbl, s.meta[i].0)], tbl[tbl_pos(tbl, s.meta[i].1)]),
        ),
        metrics: Seq::new(s.metrics.len(), |i: int| (tbl[tbl_pos(tbl, s.metrics[i].0)], s.metrics[i].1)),
        ..s
    }
}

/// Re-materializing any span of a batch through the batch's string table
/// yields the very span the keyed encoding carries: the two encodings hold
/// the same logical span.
pub proof fn lemma_v05_rematerializes(m: Seq<(u64, TraceV)>, t: int, i: int)
    requires
        0 <= t < m.len(),
        0 <= i < m[t].1.spans.len(),
    ensures
        rematerialize_span(m[t].1.spans[i], spec_table_v05(m)) == m[t].1.spans[i],
{
    lemma_table_v05_props(m);
    let tbl = spec_table_v05(m);
    let s = m[t].1.spans[i];
    assert(span_in_table(s, tbl));
    lemma_table_resolves(tbl, s.service);
    lemma_table_resolves(tbl, s.name);
    lemma_table_resolves(tbl, s.resource);
    lemma_table_resolves(tbl, s.span_type);
    let r = rematerialize_span(s, tbl);
    assert forall|k: int| 0 <= k < s.meta.len() implies r.meta[k] == #[trigger] s.meta[k] by {
        assert(tbl.contains(s.meta[k].0) && tbl.contains(s.meta[k].1));
        lemma_table_resolves(tbl, s.meta[k].0);
        lemma_table_resolves(tbl, s.meta[k].1);
    }
    assert forall|k: int|
        0 <= k < s.metrics.len() implies r.metrics[k] == #[trigger] s.metrics[k] by {
        assert(tbl.contains(s.metrics[k].0));
        lemma_table_resolves(tbl, s.metrics[k].0);
    }
    assert(r.meta =~= s.meta);
    assert(r.metrics =~= s.metrics);
    assert(r =~~= s);
}

// ---------------------------------------------------------------------------
// Reading a keyed span back from its encoding
// ---------------------------------------------------------------------------
/// Read a string field under its expected literal key.
pub open spec fn dec_kv_str(b: Seq<u8>, p: int, key: Seq<char>) -> Option<(Seq<char>, int)> {
    match dec_str(b, p) {
        None => None,
        Some((k, p1)) => if k == key {
            dec_str(b, p1)
        } else {
            None
        },
    }
}

/// Read an unsigned field under its expected literal key.
pub open spec fn dec_kv_uint(b: Seq<u8>, p: int, key: Seq<char>) -> Option<(u64, int)> {
    match dec_str(b, p) {
        None => None,
        Some((k, p1)) => if k == key {
            dec_uint(b, p1)
        } else {
            None
        },
    }
}

/// Read `n` string/string pairs, in order.
pub open spec fn dec_str_pairs(
    b: Seq<u8>,
    p: int,
    n: u32,
    acc: Seq<(Seq<char>, Seq<char>)>,
) -> Option<(Seq<(Seq<char>, Seq<char>)>, int)>
    decreases n,
{
    if n == 0 {
        Some((acc, p))
    } else {
        match dec_str(b, p) {
            None => None,
            Some((k, p1)) => match dec_str(b, p1) {
                None => None,
                Some((v, p2)) => dec_str_pairs(b, p2, (n - 1) as u32, acc.push((k, v))),
            },
        }
    }
}

/// Read `n` string/float pairs, in order.
pub open spec fn dec_float_pairs(b: Seq<u8>, p: int, n: u32, acc: Seq<(Seq<char>, u64)>) -> Option<
    (Seq<(Seq<char>, u64)>, int),
>
    decreases n,
{
    if n == 0 {
        Some((acc, p))
    } else {
        match dec_str(b, p) {
            None => None,
            Some((k, p1)) => match dec_f64_bits(b, p1) {
                None => None,
                Some((v, p2)) => dec_float_pairs(b, p2, (n - 1) as u32, acc.push((k, v))),
            },
        }
    }
}

/// The reference reading of one keyed span: the map header, the optional
/// type field, and the ten remaining fields in canonical order.
#[verifier::opaque]
pub open spec fn dec_span_v04(b: Seq<u8>, p: int) -> Option<(SpanV, int)> {
    match dec_map_len(b, p) {
        None => None,
        Some((mk, p0)) => if mk != 11 && mk != 12 {
            None
        } else {
            match (if mk == 12 {
                dec_kv_str(b, p0, "type"@)
            } else {
                Some((Seq::<char>::empty(), p0))
            }) {
                None => None,
                Some((stype, p1)) => match dec_kv_uint(b, p1, "trace_id"@) {
                    None => None,
                    Some((tid, p2)) => match dec_kv_uint(b, p2, "span_id"@) {
                        None => None,
                        Some((sid, p3)) => match dec_kv_uint(b, p3, "parent_id"@) {
                            None => None,
                            Some((pid, p4)) => match dec_kv_str(b, p4, "name"@) {
                                None => None,
                                Some((name, p5)) => match dec_kv_str(b, p5, "resource"@) {
                                    None => None,
                                    Some((resource, p6)) => match dec_kv_str(b, p6, "service"@) {
                                        None => None,
                                        Some((service, p7)) => match dec_kv_uint(b, p7, "error"@) {
                                            None => None,
                                            Some((error, p8)) => match dec_kv_uint(
                                                b,
                                                p8,
                                                "start"@,
                                            ) {
                                                None => None,
                                                Some((start, p9)) => match dec_kv_uint(
                                                    b,
                                                    p9,
                                                    "duration"@,
                                                ) {
                                                    None => None,
                                                    Some((dur, p10)) => match dec_kv_meta(b, p10) {
                                                        None => None,
                                                        Some((meta, p13)) => match dec_kv_metrics(
                                                            b,
                                                            p13,
                                                        ) {
                                                            None => None,
                                                            Some((metrics, p16)) => Some(
                                                                (
                                                                    SpanV {
                                                                        span_type: stype,
                                                                        trace_id: tid,
                                                                        span_id: sid,
                                                                        parent_id: pid,
                                                                        name: name,
                                                                        resource: resource,
                                                                        service: service,
                                                                        error: error,
                                                                        start: start,
                                                                        duration: dur,
                                                                        meta: meta,
                                                                        metrics: metrics,
                                                                    },
                                                                    p16,
                                                                ),
                                                            ),
                                                        },
                                                    },
                                                },
                                            },
                                        },
                                    },
                                },
                            },
                        },
                    },
                },
            }
        },
    }
}

/// Read the `"meta"` key and its map of string pairs.
pub open spec fn dec_kv_meta(b: Seq<u8>, p: int) -> Option<(Seq<(Seq<char>, Seq<char>)>, int)> {
    match dec_str(b, p) {
        None => None,
        Some((k, p1)) => if k != "meta"@ {
            None
        } else {
            match dec_map_len(b, p1) {
                None => None,
                Some((n, p2)) => dec_str_pairs(b, p2, n, Seq::empty()),
            }
        },
    }
}

/// Read the `"metrics"` key and its map of float pairs.
pub open spec fn dec_kv_metrics(b: Seq<u8>, p: int) -> Option<(Seq<(Seq<char>, u64)>, int)> {
    match dec_str(b, p) {
        None => None,
        Some((k, p1)) => if k != "metrics"@ {
            None
        } else {
            match dec_map_len(b, p1) {
                None => None,
                Some((n, p2)) => dec_float_pairs(b, p2, n, Seq::empty()),
            }
        },
    }
}

/// The tag-entry encoding taken apart at the front.
proof fn lemma_enc_meta_entries_front(entries: Seq<(Seq<char>, Seq<char>)>)
    requires
        entries.len() > 0,
    ensures
        enc_meta_entries_v04(entries) == enc_str(entries[0].0) + (enc_str(entries[0].1)
            + enc_meta_entries_v04(entries.drop_first())),
    decreases entries.len(),
{
    if entries.len() == 1 {
        assert(entries.drop_last().len() == 0);
        assert(entries.drop_first().len() == 0);
        assert(entries.last() == entries[0]);
        assert(enc_meta_entries_v04(entries.drop_last()) == Seq::<u8>::empty());
        assert(enc_meta_entries_v04(entries.drop_first()) == Seq::<u8>::empty());
        assert(enc_meta_entries_v04(entries) == Seq::<u8>::empty() + enc_str(entries[0].0)
            + enc_str(entries[0].1));
        assert(enc_meta_entries_v04(entries) =~= enc_str(entries[0].0) + (enc_str(entries[0].1)
            + enc_meta_entries_v04(entries.drop_first())));
    } else {
        let dl = entries.drop_last();
        let df = entries.drop_first();
        lemma_enc_meta_entries_front(dl);
        assert(dl[0] == entries[0]);
        assert(df.drop_last() =~= dl.drop_first());
        assert(df.last() == entries.last());
        assert(enc_meta_entries_v04(df) == enc_meta_entries_v04(df.drop_last()) + enc_str(
            df.last().0,
        ) + enc_str(df.last().1));
        assert(enc_meta_entries_v04(entries) =~= enc_str(entries[0].0) + (enc_str(entries[0].1)
            + enc_meta_entries_v04(df)));
    }
}

/// The numeric-entry encoding taken apart at the front.
proof fn lemma_enc_metrics_entries_front(entries: Seq<(Seq<char>, u64)>)
    requires
        entries.len() > 0,
    ensures
        enc_metrics_entries_v04(entries) == enc_str(entries[0].0) + (enc_f64_bits(entries[0].1)
            + enc_metrics_entries_v04(entries.drop_first())),
    decreases entries.len(),
{
    if entries.len() == 1 {
        assert(entries.drop_last().len() == 0);
        assert(entries.drop_first().len() == 0);
        assert(entries.last() == entries[0]);
        assert(enc_metrics_entries_v04(entries.drop_last()) == Seq::<u8>::empty());
        assert(enc_metrics_entries_v04(entries.drop_first()) == Seq::<u8>::empty());
        assert(enc_metrics_entries_v04(entries) == Seq::<u8>::empty() + enc_str(entries[0].0)
            + enc_f64_bits(entries[0].1));
        assert(enc_metrics_entries_v04(entries) =~= enc_str(entries[0].0) + (enc_f64_bits(
            entries[0].1,
        ) + enc_metrics_entries_v04(entries.drop_first())));
    } else {
        let dl = entries.drop_last();
        let df = entries.drop_first();
        lemma_enc_metrics_entries_front(dl);
        assert(dl[0] == entries[0]);
        assert(df.drop_last() =~= dl.drop_first());
        assert(df.last() == entries.last());
        assert(enc_metrics_entries_v04(df) == enc_metrics_entries_v04(df.drop_last()) + enc_str(
            df.last().0,
        ) + enc_f64_bits(df.last().1));
        assert(enc_metrics_entries_v04(entries) =~= enc_str(entries[0].0) + (enc_f64_bits(
            entries[0].1,
        ) + enc_metrics_entries_v04(df)));
    }
}

/// Reading string pairs where tag entries were written yields them back.
proof fn lemma_dec_str_pairs_at(
    b: Seq<u8>,
    p: int,
    entries: Seq<(Seq<char>, Seq<char>)>,
    acc: Seq<(Seq<char>, Seq<char>)>,
)
    requires
        bytes_at(b, p, enc_meta_entries_v04(entries)),
        entries.len() <= u32::MAX,
        forall|i: int|
            0 <= i < entries.len() ==> str_fits((#[trigger] entries[i]).0) && str_fits(
                entries[i].1,
            ),
    ensures
        dec_str_pairs(b, p, entries.len() as u32, acc) == Some(
            (acc + entries, p + enc_meta_entries_v04(entries).len()),
        ),
    decreases entries.len(),
{
    if entries.len() == 0 {
        assert(acc + entries =~= acc);
    } else {
        let k0 = entries[0].0;
        let v0 = entries[0].1;
        let df = entries.drop_first();
        lemma_enc_meta_entries_front(entries);
        lemma_bytes_at_split(
            b,
            p,
            enc_str(k0),
            enc_str(v0) + enc_meta_entries_v04(df),
        );
        let p1 = p + enc_str(k0).len();
        lemma_bytes_at_split(b, p1, enc_str(v0), enc_meta_entries_v04(df));
        let p2 = p1 + enc_str(v0).len();
        lemma_dec_str_at(b, p, k0);
        lemma_dec_str_at(b, p1, v0);
        assert forall|i: int|
            0 <= i < df.len() implies str_fits((#[trigger] df[i]).0) && str_fits(df[i].1) by {
            assert(df[i] == entries[i + 1]);
        }
        lemma_dec_str_pairs_at(b, p2, df, acc.push((k0, v0)));
        assert(acc.push((k0, v0)) + df =~= acc + entries);
        assert((entries.len() as u32 - 1) as u32 == df.len() as u32);
    }
}

/// Reading float pairs where numeric entries were written yields them back.
proof fn lemma_dec_float_pairs_at(
    b: Seq<u8>,
    p: int,
    entries: Seq<(Seq<char>, u64)>,
    acc: Seq<(Seq<char>, u64)>,
)
    requires
        bytes_at(b, p, enc_metrics_entries_v04(entries)),
        entries.len() <= u32::MAX,
        forall|i: int| 0 <= i < entries.len() ==> str_fits((#[trigger] entries[i]).0),
    ensures
        dec_float_pairs(b, p, entries.len() as u32, acc) == Some(
            (acc + entries, p + enc_metrics_entries_v04(entries).len()),
        ),
    decreases entries.len(),
{
    if entries.len() == 0 {
        assert(acc + entries =~= acc);
    } else {
        let k0 = entries[0].0;
        let v0 = entries[0].1;
        let df = entries.drop_first();
        lemma_enc_metrics_entries_front(entries);
        lemma_bytes_at_split(
            b,
            p,
            enc_str(k0),
            enc_f64_bits(v0) + enc_metrics_entries_v04(df),
        );
        let p1 = p + enc_str(k0).len();
        lemma_bytes_at_split(b, p1, enc_f64_bits(v0), enc_metrics_entries_v04(df));
        let p2 = p1 + enc_f64_bits(v0).len();
        lemma_dec_str_at(b, p, k0);
        lemma_dec_f64_bits_at(b, p1, v0);
        assert forall|i: int| 0 <= i < df.len() implies str_fits((#[trigger] df[i]).0) by {
            assert(df[i] == entries[i + 1]);
        }
        lemma_dec_float_pairs_at(b, p2, df, acc.push((k0, v0)));
        assert(acc.push((k0, v0)) + df =~= acc + entries);
        assert((entries.len() as u32 - 1) as u32 == df.len() as u32);
    }
}

/// Reading a keyed span where one was written yields the source span field
/// for field; only the duration carries the wire's plus-one rule.
#[verifier::rlimit(100)]
#[verifier::spinoff_prover]
pub proof fn lemma_v04_span_round_trip(b: Seq<u8>, p: int, s: SpanV)
    requires
        bytes_at(b, p, enc_span_v04(s)),
        span_encodable(s),
    ensures
        dec_span_v04(b, p) == Some(
            (
                SpanV { duration: wire_duration(s.duration), ..s },
                p + enc_span_v04(s).len(),
            ),
        ),
{
    reveal(dec_span_v04);
    reveal(enc_span_v04);
    v04_keys_fit();
    let h = if s.span_type.len() > 0 {
        enc_map_len(12) + enc_str("type"@) + enc_str(s.span_type)
    } else {
        enc_map_len(11)
    };
    let e1 = enc_str("trace_id"@);
    let e2 = enc_uint(s.trace_id);
    let e3 = enc_str("span_id"@);
    let e4 = enc_uint(s.span_id);
    let e5 = enc_str("parent_id"@);
    let e6 = enc_uint(s.parent_id);
    let e7 = enc_str("name"@);
    let e8 = enc_str(s.name);
    let e9 = enc_str("resource"@);
    let e10 = enc_str(s.resource);
    let e11 = enc_str("service"@);
    let e12 = enc_str(s.service);
    let e13 = enc_str("error"@);
    let e14 = enc_uint(s.error);
    let e15 = enc_str("start"@);
    let e16 = enc_uint(s.start);
    let e17 = enc_str("duration"@);
    let e18 = enc_uint(wire_duration(s.duration));
    let e19 = enc_str("meta"@);
    let e20 = enc_map_len(s.meta.len() as u32);
    let e21 = enc_meta_entries_v04(s.meta);
    let e22 = enc_str("metrics"@);
    let e23 = enc_map_len(s.metrics.len() as u32);
    let e24 = enc_metrics_entries_v04(s.metrics);
    let q23 = h + e1 + e2 + e3 + e4 + e5 + e6 + e7 + e8 + e9 + e10 + e11 + e12 + e13 + e14 + e15
        + e16 + e17 + e18 + e19 + e20 + e21 + e22 + e23;
    let q22 = h + e1 + e2 + e3 + e4 + e5 + e6 + e7 + e8 + e9 + e10 + e11 + e12 + e13 + e14 + e15
        + e16 + e17 + e18 + e19 + e20 + e21 + e22;
    let q21 = h + e1 + e2 + e3 + e4 + e5 + e6 + e7 + e8 + e9 + e10 + e11 + e12 + e13 + e14 + e15
        + e16 + e17 + e18 + e19 + e20 + e21;
    let q20 = h + e1 + e2 + e3 + e4 + e5 + e6 + e7 + e8 + e9 + e10 + e11 + e12 + e13 + e14 + e15
        + e16 + e17 + e18 + e19 + e20;
    let q19 = h + e1 + e2 + e3 + e4 + e5 + e6 + e7 + e8 + e9 + e10 + e11 + e12 + e13 + e14 + e15
        + e16 + e17 + e18 + e19;
    let q18 = h + e1 + e2 + e3 + e4 + e5 + e6 + e7 + e8 + e9 + e10 + e11 + e12 + e13 + e14 + e15
        + e16 + e17 + e18;
    let q17 = h + e1 + e2 + e3 + e4 + e5 + e6 + e7 + e8 + e9 + e10 + e11 + e12 + e13 + e14 + e15
        + e16 + e17;
    let q16 = h + e1 + e2 + e3 + e4 + e5 + e6 + e7 + e8 + e9 + e10 + e11 + e12 + e13 + e14 + e15
        + e16;
    let q15 = h + e1 + e2 + e3 + e4 + e5 + e6 + e7 + e8 + e9 + e10 + e11 + e12 + e13 + e14 + e15;
    let q14 = h + e1 + e2 + e3 + e4 + e5 + e6 + e7 + e8 + e9 + e10 + e11 + e12 + e13 + e14;
    let q13 = h + e1 + e2 + e3 + e4 + e5 + e6 + e7 + e8 + e9 + e10 + e11 + e12 + e13;
    let q12 = h + e1 + e2 + e3 + e4 + e5 + e6 + e7 + e8 + e9 + e10 + e11 + e12;
    let q11 = h + e1 + e2 + e3 + e4 + e5 + e6 + e7 + e8 + e9 + e10 + e11;
    let q10 = h + e1 + e2 + e3 + e4 + e5 + e6 + e7 + e8 + e9 + e10;
    let q9 = h + e1 + e2 + e3 + e4 + e5 + e6 + e7 + e8 + e9;
    let q8 = h + e1 + e2 + e3 + e4 + e5 + e6 + e7 + e8;
    let q7 = h + e1 + e2 + e3 + e4 + e5 + e6 + e7;
    let q6 = h + e1 + e2 + e3 + e4 + e5 + e6;
    let q5 = h + e1 + e2 + e3 + e4 + e5;
    let q4 = h + e1 + e2 + e3 + e4;
    let q3 = h + e1 + e2 + e3;
    let q2 = h + e1 + e2;
    let q1 = h + e1;
    assert(enc_span_v04(s) == q23 + e24);
    lemma_bytes_at_split(b, p, q23, e24);
    lemma_bytes_at_split(b, p, q22, e23);
    lemma_bytes_at_split(b, p, q21, e22);
    lemma_bytes_at_split(b, p, q20, e21);
    lemma_bytes_at_split(b, p, q19, e20);
    lemma_bytes_at_split(b, p, q18, e19);
    lemma_bytes_at_split(b, p, q17, e18);
    lemma_bytes_at_split(b, p, q16, e17);
    lemma_bytes_at_split(b, p, q15, e16);
    lemma_bytes_at_split(b, p, q14, e15);
    lemma_bytes_at_split(b, p, q13, e14);
    lemma_bytes_at_split(b, p, q12, e13);
    lemma_bytes_at_split(b, p, q11, e12);
    lemma_bytes_at_split(b, p, q10, e11);
    lemma_bytes_at_split(b, p, q9, e10);
    lemma_bytes_at_split(b, p, q8, e9);
    lemma_bytes_at_split(b, p, q7, e8);
    lemma_bytes_at_split(b, p, q6, e7);
    lemma_bytes_at_split(b, p, q5, e6);
    lemma_bytes_at_split(b, p, q4, e5);
    lemma_bytes_at_split(b, p, q3, e4);
    lemma_bytes_at_split(b, p, q2, e3);
    lemma_bytes_at_split(b, p, q1, e2);
    lemma_bytes_at_split(b, p, h, e1);
    if s.span_type.len() > 0 {
        lemma_bytes_at_split(b, p, enc_map_len(12) + enc_str("type"@), enc_str(s.span_type));
        lemma_bytes_at_split(b, p, enc_map_len(12), enc_str("type"@));
        lemma_dec_map_len_at(b, p, 12);
        lemma_dec_str_at(b, p + enc_map_len(12).len(), "type"@);
        lemma_dec_str_at(b, p + enc_map_len(12).len() + enc_str("type"@).len(), s.span_type);
    } else {
        lemma_dec_map_len_at(b, p, 11);
        assert(s.span_type =~= Seq::<char>::empty());
    }
    let p1 = p + h.len();
    lemma_dec_str_at(b, p1, "trace_id"@);
    lemma_dec_uint_at(b, p1 + e1.len(), s.trace_id);
    let p2 = p1 + e1.len() + e2.len();
    lemma_dec_str_at(b, p2, "span_id"@);
    lemma_dec_uint_at(b, p2 + e3.len(), s.span_id);
    let p3 = p2 + e3.len() + e4.len();
    lemma_dec_str_at(b, p3, "parent_id"@);
    lemma_dec_uint_at(b, p3 + e5.len(), s.parent_id);
    let p4 = p3 + e5.len() + e6.len();
    lemma_dec_str_at(b, p4, "name"@);
    lemma_dec_str_at(b, p4 + e7.len(), s.name);
    let p5 = p4 + e7.len() + e8.len();
    lemma_dec_str_at(b, p5, "resource"@);
    lemma_dec_str_at(b, p5 + e9.len(), s.resource);
    let p6 = p5 + e9.len() + e10.len();
    lemma_dec_str_at(b, p6, "service"@);
    lemma_dec_str_at(b, p6 + e11.len(), s.service);
    let p7 = p6 + e11.len() + e12.len();
    lemma_dec_str_at(b, p7, "error"@);
    lemma_dec_uint_at(b, p7 + e13.len(), s.error);
    let p8 = p7 + e13.len() + e14.len();
    lemma_dec_str_at(b, p8, "start"@);
    lemma_dec_uint_at(b, p8 + e15.len(), s.start);
    let p9 = p8 + e15.len() + e16.len();
    lemma_dec_str_at(b, p9, "duration"@);
    lemma_dec_uint_at(b, p9 + e17.len(), wire_duration(s.duration));
    let p10 = p9 + e17.len() + e18.len();
    lemma_dec_str_at(b, p10, "meta"@);
    lemma_dec_map_len_at(b, p10 + e19.len(), s.meta.len() as u32);
    let p11 = p10 + e19.len() + e20.len();
    lemma_dec_str_pairs_at(b, p11, s.meta, Seq::empty());
    assert(Seq::empty() + s.meta =~= s.meta);
    let p12 = p11 + e21.len();
    lemma_dec_str_at(b, p12, "metrics"@);
    lemma_dec_map_len_at(b, p12 + e22.len(), s.metrics.len() as u32);
    let p13 = p12 + e22.len() + e23.len();
    lemma_dec_float_pairs_at(b, p13, s.metrics, Seq::empty());
    assert(Seq::empty() + s.metrics =~= s.metrics);
    let decoded = SpanV { duration: wire_duration(s.duration), ..s };
    match dec_span_v04(b, p) {
        Some(rp) => {
            assert(rp.0 =~~= decoded);
            assert(rp.1 == p + enc_span_v04(s).len());
        },
        None => {
            assert(false);
        },
    }
}

/// A span as it sits on the wire: the duration carries the plus-one rule,
/// every other field travels unchanged.
pub open spec fn wire_span(s: SpanV) -> SpanV {
    SpanV { duration: wire_duration(s.duration), ..s }
}

/// Read `n` keyed spans, in order.
pub open spec fn dec_spans_v04(b: Seq<u8>, p: int, n: u32, acc: Seq<SpanV>) -> Option<
    (Seq<SpanV>, int),
>
    decreases n,
{
    if n == 0 {
        Some((acc, p))
    } else {
        match dec_span_v04(b, p) {
            None => None,
            Some((s, p2)) => dec_spans_v04(b, p2, (n - 1) as u32, acc.push(s)),
        }
    }
}

/// Read one trace: an array of keyed spans.
pub open spec fn dec_trace_v04(b: Seq<u8>, p: int) -> Option<(Seq<SpanV>, int)> {
    match dec_array_len(b, p) {
        None => None,
        Some((n, p1)) => dec_spans_v04(b, p1, n, Seq::empty()),
    }
}

/// Read `n` traces, in order.
pub open spec fn dec_traces_items_v04(b: Seq<u8>, p: int, n: u32, acc: Seq<Seq<SpanV>>) -> Option<
    (Seq<Seq<SpanV>>, int),
>
    decreases n,
{
    if n == 0 {
        Some((acc, p))
    } else {
        match dec_trace_v04(b, p) {
            None => None,
            Some((t, p2)) => dec_traces_items_v04(b, p2, (n - 1) as u32, acc.push(t)),
        }
    }
}

/// The reference reading of a whole keyed batch: an array of traces, each
/// an array of keyed spans.
pub open spec fn dec_traces_v04(b: Seq<u8>) -> Option<Seq<Seq<SpanV>>> {
    match dec_array_len(b, 0) {
        None => None,
        Some((n, p0)) => match dec_traces_items_v04(b, p0, n, Seq::empty()) {
            None => None,
            Some((ts, p1)) => Some(ts),
        },
    }
}

/// The span-sequence encoding taken apart at the front.
proof fn lemma_enc_spans_front(spans: Seq<SpanV>)
    requires
        spans.len() > 0,
    ensures
        enc_spans_v04(spans) == enc_span_v04(spans[0]) + enc_spans_v04(spans.drop_first()),
    decreases spans.len(),
{
    if spans.len() == 1 {
        assert(spans.drop_last().len() == 0);
        assert(spans.drop_first().len() == 0);
        assert(spans.last() == spans[0]);
        assert(enc_spans_v04(spans.drop_last()) == Seq::<u8>::empty());
        assert(enc_spans_v04(spans.drop_first()) == Seq::<u8>::empty());
        assert(enc_spans_v04(spans) == Seq::<u8>::empty() + enc_span_v04(spans[0]));
        assert(enc_spans_v04(spans) =~= enc_span_v04(spans[0]) + enc_spans_v04(
            spans.drop_first(),
        ));
    } else {
        let dl = spans.drop_last();
        let df = spans.drop_first();
        lemma_enc_spans_front(dl);
        assert(dl[0] == spans[0]);
        assert(df.drop_last() =~= dl.drop_first());
        assert(df.last() == spans.last());
        assert(enc_spans_v04(df) == enc_spans_v04(df.drop_last()) + enc_span_v04(df.last()));
        assert(enc_spans_v04(spans) =~= enc_span_v04(spans[0]) + enc_spans_v04(df));
    }
}

/// The batch-entry encoding taken apart at the front.
proof fn lemma_enc_traces_entries_front(m: Seq<(u64, TraceV)>)
    requires
        m.len() > 0,
    ensures
        enc_traces_entries_v04(m) == enc_trace_v04(m[0].1) + enc_traces_entries_v04(
            m.drop_first(),
        ),
    decreases m.len(),
{
    if m.len() == 1 {
        assert(m.drop_last().len() == 0);
        assert(m.drop_first().len() == 0);
        assert(m.last() == m[0]);
        assert(enc_traces_entries_v04(m.drop_last()) == Seq::<u8>::empty());
        assert(enc_traces_entries_v04(m.drop_first()) == Seq::<u8>::empty());
        assert(enc_traces_entries_v04(m) == Seq::<u8>::empty() + enc_trace_v04(m[0].1));
        assert(enc_traces_entries_v04(m) =~= enc_trace_v04(m[0].1) + enc_traces_entries_v04(
            m.drop_first(),
        ));
    } else {
        let dl = m.drop_last();
        let df = m.drop_first();
        lemma_enc_traces_entries_front(dl);
        assert(dl[0] == m[0]);
        assert(df.drop_last() =~= dl.drop_first());
        assert(df.last() == m.last());
        assert(enc_traces_entries_v04(df) == enc_traces_entries_v04(df.drop_last())
            + enc_trace_v04(df.last().1));
        assert(enc_traces_entries_v04(m) =~= enc_trace_v04(m[0].1) + enc_traces_entries_v04(df));
    }
}

/// Reading spans where a span sequence was written yields the wire form of
/// each span, in order.
#[verifier::rlimit(100)]
#[verifier::spinoff_prover]
proof fn lemma_dec_spans_at(b: Seq<u8>, p: int, spans: Seq<SpanV>, acc: Seq<SpanV>)
    requires
        bytes_at(b, p, enc_spans_v04(spans)),
        spans.len() <= u32::MAX,
        forall|i: int| 0 <= i < spans.len() ==> span_encodable(#[trigger] spans[i]),
    ensures
        dec_spans_v04(b, p, spans.len() as u32, acc) == Some(
            (acc + spans.map_values(|s: SpanV| wire_span(s)), p + enc_spans_v04(spans).len()),
        ),
    decreases spans.len(),
{
    if spans.len() == 0 {
        assert(acc + spans.map_values(|s: SpanV| wire_span(s)) =~= acc);
    } else {
        let s0 = spans[0];
        let df = spans.drop_first();
        lemma_enc_spans_front(spans);
        lemma_bytes_at_split(b, p, enc_span_v04(s0), enc_spans_v04(df));
        let p1 = p + enc_span_v04(s0).len();
        lemma_v04_span_round_trip(b, p, s0);
        assert forall|i: int| 0 <= i < df.len() implies span_encodable(#[trigger] df[i]) by {
            assert(df[i] == spans[i + 1]);
        }
        lemma_dec_spans_at(b, p1, df, acc.push(wire_span(s0)));
        assert(acc.push(wire_span(s0)) + df.map_values(|s: SpanV| wire_span(s)) =~= acc
            + spans.map_values(|s: SpanV| wire_span(s)));
        assert((spans.len() as u32 - 1) as u32 == df.len() as u32);
    }
}

/// Reading traces where batch entries were written yields each trace's wire
/// spans, in order.
#[verifier::rlimit(100)]
#[verifier::spinoff_prover]
proof fn lemma_dec_traces_items_at(
    b: Seq<u8>,
    p: int,
    m: Seq<(u64, TraceV)>,
    acc: Seq<Seq<SpanV>>,
)
    requires
        bytes_at(b, p, enc_traces_entries_v04(m)),
        m.len() <= u32::MAX,
        forall|i: int| 0 <= i < m.len() ==> trace_encodable((#[trigger] m[i]).1),
    ensures
        dec_traces_items_v04(b, p, m.len() as u32, acc) == Some(
            (
                acc + m.map_values(
                    |t: (u64, TraceV)| t.1.spans.map_values(|s: SpanV| wire_span(s)),
                ),
                p + enc_traces_entries_v04(m).len(),
            ),
        ),
    decreases m.len(),
{
    if m.len() == 0 {
        assert(acc + m.map_values(
            |t: (u64, TraceV)| t.1.spans.map_values(|s: SpanV| wire_span(s)),
        ) =~= acc);
    } else {
        let t0 = m[0].1;
        let df = m.drop_first();
        lemma_enc_traces_entries_front(m);
        lemma_bytes_at_split(b, p, enc_trace_v04(t0), enc_traces_entries_v04(df));
        lemma_bytes_at_split(
            b,
            p,
            enc_array_len(t0.spans.len() as u32),
            enc_spans_v04(t0.spans),
        );
        lemma_dec_array_len_at(b, p, t0.spans.len() as u32);
        let p1 = p + enc_array_len(t0.spans.len() as u32).len();
        lemma_dec_spans_at(b, p1, t0.spans, Seq::empty());
        assert(Seq::empty() + t0.spans.map_values(|s: SpanV| wire_span(s)) =~= t0.spans.map_values(
            |s: SpanV| wire_span(s),
        ));
        let p2 = p + enc_trace_v04(t0).len();
        assert forall|i: int| 0 <= i < df.len() implies trace_encodable((#[trigger] df[i]).1) by {
            assert(df[i] == m[i + 1]);
        }
        lemma_dec_traces_items_at(
            b,
            p2,
            df,
            acc.push(t0.spans.map_values(|s: SpanV| wire_span(s))),
        );
        assert(acc.push(t0.spans.map_values(|s: SpanV| wire_span(s))) + df.map_values(
            |t: (u64, TraceV)| t.1.spans.map_values(|s: SpanV| wire_span(s)),
        ) =~= acc + m.map_values(
            |t: (u64, TraceV)| t.1.spans.map_values(|s: SpanV| wire_span(s)),
        ));
        assert((m.len() as u32 - 1) as u32 == df.len() as u32);
    }
}

/// Encoding a batch in the keyed form and reading it back with the
/// reference decoder yields every trace's spans field for field; only the
/// duration carries the wire's plus-one rule, and trace identifiers key the
/// batch rather than travel in it.
pub proof fn lemma_v04_round_trip(m: Seq<(u64, TraceV)>)
    requires
        traces_encodable(m),
    ensures
        dec_traces_v04(enc_traces_v04(m)) == Some(
            m.map_values(|t: (u64, TraceV)| t.1.spans.map_values(|s: SpanV| wire_span(s))),
        ),
{
    let b = enc_traces_v04(m);
    assert(b.subrange(0, b.len() as int) =~= b);
    assert(bytes_at(b, 0, enc_array_len(m.len() as u32) + enc_traces_entries_v04(m)));
    lemma_bytes_at_split(b, 0, enc_array_len(m.len() as u32), enc_traces_entries_v04(m));
    lemma_dec_array_len_at(b, 0, m.len() as u32);
    let p0 = 0int + enc_array_len(m.len() as u32).len() as int;
    lemma_dec_traces_items_at(b, p0, m, Seq::empty());
    assert(Seq::empty() + m.map_values(
        |t: (u64, TraceV)| t.1.spans.map_values(|s: SpanV| wire_span(s)),
    ) =~= m.map_values(|t: (u64, TraceV)| t.1.spans.map_values(|s: SpanV| wire_span(s))));
}

} // verus!
