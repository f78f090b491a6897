//! The event decoder and processor.
//!
//! A payload is one MessagePack document: an outer array header (its length
//! read and discarded), an array of strings appended to the payload's string
//! table, and an array of events. Decoding resolves every string index
//! against the table and normalizes each event to one of four operations on
//! the trace aggregate; applying is a pure state transition. `process`
//! decodes first and applies second, so a malformed payload leaves the
//! aggregate untouched and reports `MalformedInput`.

use vstd::prelude::*;
use vstd::string::StringExecFns;

use crate::interning::Interner;
use crate::msgpack::{
    dec_array_len, dec_f64_bits, dec_map_len, dec_str, dec_u16, dec_uint, dec_usize,
    read_array_len, read_f64_bits, read_map_len, read_str, read_u16, read_u64, read_usize,
    skip_values, spec_skip_n,
};
use crate::numbers::{f64_bits_of_u16, spec_decimal, spec_f64_bits_of_u16, u16_to_decimal};
use crate::tracing::{
    lemma_unfinished_incomplete, spec_add_error, spec_add_tags, spec_finish_span,
    spec_finished_part, spec_start_span, spec_unfinished_part, span_wf, str_insert,
    str_keys_unique, Meta, Metrics, Span, SpanV, TraceV, Traces,
};
use crate::Error;

verus! {

// ---------------------------------------------------------------------------
// Events
// ---------------------------------------------------------------------------
/// The mathematical value of a decoded event.
#[verifier::ext_equal]
pub ghost enum EventV {
    StartSpan { span: SpanV },
    FinishSpan {
        trace_id: u64,
        span_id: u64,
        finish: u64,
        meta: Seq<(Seq<char>, Seq<char>)>,
        metrics: Seq<(Seq<char>, u64)>,
    },
    AddTags {
        trace_id: u64,
        span_id: u64,
        meta: Seq<(Seq<char>, Seq<char>)>,
        metrics: Seq<(Seq<char>, u64)>,
    },
    AddError { trace_id: u64, span_id: u64, meta: Seq<(Seq<char>, Seq<char>)> },
}

/// One decoded event, with every string index already resolved. The
/// specialized web-request and database-query starts normalize to `StartSpan`
/// with their derived names and tags; a finished web request normalizes to
/// `FinishSpan` carrying the status tag.
pub enum Event {
    StartSpan { span: Span },
    FinishSpan { trace_id: u64, span_id: u64, finish: u64, meta: Meta, metrics: Metrics },
    AddTags { trace_id: u64, span_id: u64, meta: Meta, metrics: Metrics },
    AddError { trace_id: u64, span_id: u64, meta: Meta },
}

impl View for Event {
    type V = EventV;

    open spec fn view(&self) -> EventV {
        match self {
            Event::StartSpan { span } => EventV::StartSpan { span: span@ },
            Event::FinishSpan { trace_id, span_id, finish, meta, metrics } => EventV::FinishSpan {
                trace_id: *trace_id,
                span_id: *span_id,
                finish: *finish,
                meta: meta@,
                metrics: metrics@,
            },
            Event::AddTags { trace_id, span_id, meta, metrics } => EventV::AddTags {
                trace_id: *trace_id,
                span_id: *span_id,
                meta: meta@,
                metrics: metrics@,
            },
            Event::AddError { trace_id, span_id, meta } => EventV::AddError {
                trace_id: *trace_id,
                span_id: *span_id,
                meta: meta@,
            },
        }
    }
}

/// Every tag map carried by the event has distinct keys.
pub open spec fn event_wf(e: EventV) -> bool {
    match e {
        EventV::StartSpan { span } => span_wf(span),
        EventV::FinishSpan { meta, metrics, .. } => str_keys_unique(meta) && str_keys_unique(
            metrics,
        ),
        EventV::AddTags { meta, metrics, .. } => str_keys_unique(meta) && str_keys_unique(metrics),
        EventV::AddError { meta, .. } => str_keys_unique(meta),
    }
}

/// The views of a sequence of decoded events.
pub open spec fn events_view(s: Seq<Event>) -> Seq<EventV> {
    Seq::new(s.len(), |i: int| s[i]@)
}

/// The aggregate after one event.
pub open spec fn spec_apply_event(m: Seq<(u64, TraceV)>, e: EventV) -> Seq<(u64, TraceV)> {
    match e {
        EventV::StartSpan { span } => spec_start_span(m, span),
        EventV::FinishSpan { trace_id, span_id, finish, meta, metrics } => spec_finish_span(
            m,
            trace_id,
            span_id,
            finish,
            meta,
            metrics,
        ),
        EventV::AddTags { trace_id, span_id, meta, metrics } => spec_add_tags(
            m,
            trace_id,
            span_id,
            meta,
            metrics,
        ),
        EventV::AddError { trace_id, span_id, meta } => spec_add_error(m, trace_id, span_id, meta),
    }
}

/// The aggregate after a sequence of events, applied in order.
pub open spec fn spec_apply_events(m: Seq<(u64, TraceV)>, evs: Seq<EventV>) -> Seq<(u64, TraceV)>
    decreases evs.len(),
{
    if evs.len() == 0 {
        m
    } else {
        spec_apply_events(spec_apply_event(m, evs[0]), evs.drop_first())
    }
}

// ---------------------------------------------------------------------------
// Specification of payload decoding
// ---------------------------------------------------------------------------
/// Decode a string-table reference: an index resolved against the table.
pub open spec fn dec_table_str(b: Seq<u8>, p: int, tbl: Seq<Seq<char>>) -> Option<(Seq<char>, int)> {
    match dec_usize(b, p) {
        Some((i, p2)) => if i < tbl.len() {
            Some((tbl[i as int], p2))
        } else {
            None
        },
        None => None,
    }
}

/// Decode `n` key/value string-reference pairs into `acc`, last writer
/// winning.
pub open spec fn dec_meta_entries(
    b: Seq<u8>,
    p: int,
    n: u32,
    tbl: Seq<Seq<char>>,
    acc: Seq<(Seq<char>, Seq<char>)>,
) -> Option<(Seq<(Seq<char>, Seq<char>)>, int)>
    decreases n,
{
    if n == 0 {
        Some((acc, p))
    } else {
        match dec_table_str(b, p, tbl) {
            None => None,
            Some((k, p2)) => match dec_table_str(b, p2, tbl) {
                None => None,
                Some((v, p3)) => dec_meta_entries(b, p3, (n - 1) as u32, tbl, str_insert(acc, k, v)),
            },
        }
    }
}

/// Decode `n` key/float pairs into `acc`, last writer winning.
pub open spec fn dec_metrics_entries(
    b: Seq<u8>,
    p: int,
    n: u32,
    tbl: Seq<Seq<char>>,
    acc: Seq<(Seq<char>, u64)>,
) -> Option<(Seq<(Seq<char>, u64)>, int)>
    decreases n,
{
    if n == 0 {
        Some((acc, p))
    } else {
        match dec_table_str(b, p, tbl) {
            None => None,
            Some((k, p2)) => match dec_f64_bits(b, p2) {
                None => None,
                Some((v, p3)) => dec_metrics_entries(
                    b,
                    p3,
                    (n - 1) as u32,
                    tbl,
                    str_insert(acc, k, v),
                ),
            },
        }
    }
}

/// Decode the two tag maps that trail several event kinds.
pub open spec fn dec_tags(b: Seq<u8>, p: int, tbl: Seq<Seq<char>>) -> Option<
    ((Seq<(Seq<char>, Seq<char>)>, Seq<(Seq<char>, u64)>), int),
> {
    match dec_map_len(b, p) {
        None => None,
        Some((mn, p1)) => match dec_meta_entries(b, p1, mn, tbl, Seq::empty()) {
            None => None,
            Some((meta, p2)) => match dec_map_len(b, p2) {
                None => None,
                Some((xn, p3)) => match dec_metrics_entries(b, p3, xn, tbl, Seq::empty()) {
                    None => None,
                    Some((mets, p4)) => Some(((meta, mets), p4)),
                },
            },
        },
    }
}

/// Decode a generic span start.
pub open spec fn dec_start_span(b: Seq<u8>, p: int, tbl: Seq<Seq<char>>) -> Option<(EventV, int)> {
    match dec_uint(b, p) {
        None => None,
        Some((start, p1)) => match dec_uint(b, p1) {
            None => None,
            Some((tid, p2)) => match dec_uint(b, p2) {
                None => None,
                Some((sid, p3)) => match dec_uint(b, p3) {
                    None => None,
                    Some((pid, p4)) => match dec_table_str(b, p4, tbl) {
                        None => None,
                        Some((service, p5)) => match dec_table_str(b, p5, tbl) {
                            None => None,
                            Some((name, p6)) => match dec_table_str(b, p6, tbl) {
                                None => None,
                                Some((resource, p7)) => match dec_tags(b, p7, tbl) {
                                    None => None,
                                    Some((tags, p8)) => match dec_table_str(b, p8, tbl) {
                                        None => None,
                                        Some((stype, p9)) => Some(
                                            (
                                                EventV::StartSpan {
                                                    span: SpanV {
                                                        span_type: stype,
                                                        trace_id: tid,
                                                        span_id: sid,
                                                        parent_id: pid,
                                                        name: name,
                                                        resource: resource,
                                                        service: service,
                                                        error: 0,
                                                        start: start,
                                                        duration: 0,
                                                        meta: tags.0,
                                                        metrics: tags.1,
                                                    },
                                                },
                                                p9,
                                            ),
                                        ),
                                    },
                                },
                            },
                        },
                    },
                },
            },
        },
    }
}

/// Decode a generic span finish.
pub open spec fn dec_finish_span(b: Seq<u8>, p: int, tbl: Seq<Seq<char>>) -> Option<(EventV, int)> {
    match dec_uint(b, p) {
        None => None,
        Some((finish, p1)) => match dec_uint(b, p1) {
            None => None,
            Some((tid, p2)) => match dec_uint(b, p2) {
                None => None,
                Some((sid, p3)) => match dec_tags(b, p3, tbl) {
                    None => None,
                    Some((tags, p4)) => Some(
                        (
                            EventV::FinishSpan {
                                trace_id: tid,
                                span_id: sid,
                                finish: finish,
                                meta: tags.0,
                                metrics: tags.1,
                            },
                            p4,
                        ),
                    ),
                },
            },
        },
    }
}

/// Decode a tag merge.
pub open spec fn dec_add_tags(b: Seq<u8>, p: int, tbl: Seq<Seq<char>>) -> Option<(EventV, int)> {
    match dec_uint(b, p) {
        None => None,
        Some((ignored, p1)) => match dec_uint(b, p1) {
            None => None,
            Some((tid, p2)) => match dec_uint(b, p2) {
                None => None,
                Some((sid, p3)) => match dec_tags(b, p3, tbl) {
                    None => None,
                    Some((tags, p4)) => Some(
                        (
                            EventV::AddTags {
                                trace_id: tid,
                                span_id: sid,
                                meta: tags.0,
                                metrics: tags.1,
                            },
                            p4,
                        ),
                    ),
                },
            },
        },
    }
}

/// Decode an error mark. The event comes in two shapes, told apart by the
/// length of its array: the short one carries only the flag, the long one
/// adds three string references stored under the error tag keys.
pub open spec fn dec_add_error(b: Seq<u8>, p: int, tbl: Seq<Seq<char>>, size: u32) -> Option<
    (EventV, int),
> {
    match dec_uint(b, p) {
        None => None,
        Some((ignored, p1)) => match dec_uint(b, p1) {
            None => None,
            Some((tid, p2)) => match dec_uint(b, p2) {
                None => None,
                Some((sid, p3)) => if size < 4 {
                    Some(
                        (
                            EventV::AddError { trace_id: tid, span_id: sid, meta: Seq::empty() },
                            p3,
                        ),
                    )
                } else {
                    match dec_table_str(b, p3, tbl) {
                        None => None,
                        Some((name, p4)) => match dec_table_str(b, p4, tbl) {
                            None => None,
                            Some((message, p5)) => match dec_table_str(b, p5, tbl) {
                                None => None,
                                Some((stack, p6)) => Some(
                                    (
                                        EventV::AddError {
                                            trace_id: tid,
                                            span_id: sid,
                                            meta: str_insert(
                                                str_insert(
                                                    str_insert(
                                                        Seq::empty(),
                                                        "error.name"@,
                                                        name,
                                                    ),
                                                    "error.message"@,
                                                    message,
                                                ),
                                                "error.stack"@,
                                                stack,
                                            ),
                                        },
                                        p6,
                                    ),
                                ),
                            },
                        },
                    }
                },
            },
        },
    }
}

/// Decode a web-request start: the span derives its name from the component,
/// its resource from the method and route, and carries the method and URL as
/// tags.
pub open spec fn dec_start_web_request(b: Seq<u8>, p: int, tbl: Seq<Seq<char>>) -> Option<
    (EventV, int),
> {
    match dec_uint(b, p) {
        None => None,
        Some((start, p1)) => match dec_uint(b, p1) {
            None => None,
            Some((tid, p2)) => match dec_uint(b, p2) {
                None => None,
                Some((sid, p3)) => match dec_uint(b, p3) {
                    None => None,
                    Some((pid, p4)) => match dec_table_str(b, p4, tbl) {
                        None => None,
                        Some((component, p5)) => match dec_table_str(b, p5, tbl) {
                            None => None,
                            Some((method, p6)) => match dec_table_str(b, p6, tbl) {
                                None => None,
                                Some((url, p7)) => match dec_table_str(b, p7, tbl) {
                                    None => None,
                                    Some((route, p8)) => Some(
                                        (
                                            EventV::StartSpan {
                                                span: SpanV {
                                                    span_type: "web"@,
                                                    trace_id: tid,
                                                    span_id: sid,
                                                    parent_id: pid,
                                                    name: component + ".request"@,
                                                    resource: method + " "@ + route,
                                                    service: "unnamed-app"@,
                                                    error: 0,
                                                    start: start,
                                                    duration: 0,
                                                    meta: str_insert(
                                                        str_insert(
                                                            Seq::empty(),
                                                            "http.method"@,
                                                            method,
                                                        ),
                                                        "http.url"@,
                                                        url,
                                                    ),
                                                    metrics: Seq::empty(),
                                                },
                                            },
                                            p8,
                                        ),
                                    ),
                                },
                            },
                        },
                    },
                },
            },
        },
    }
}

/// Decode a web-request finish: the status code travels as a 16-bit integer
/// and lands as its decimal rendering under the status tag key.
pub open spec fn dec_finish_web_request(b: Seq<u8>, p: int) -> Option<(EventV, int)> {
    match dec_uint(b, p) {
        None => None,
        Some((finish, p1)) => match dec_uint(b, p1) {
            None => None,
            Some((tid, p2)) => match dec_uint(b, p2) {
                None => None,
                Some((sid, p3)) => match dec_u16(b, p3) {
                    None => None,
                    Some((status, p4)) => Some(
                        (
                            EventV::FinishSpan {
                                trace_id: tid,
                                span_id: sid,
                                finish: finish,
                                meta: str_insert(
                                    Seq::empty(),
                                    "http.status_code"@,
                                    spec_decimal(status as int),
                                ),
                                metrics: Seq::empty(),
                            },
                            p4,
                        ),
                    ),
                },
            },
        },
    }
}

/// Decode a database-query start: the SQL text becomes the resource and the
/// connection details become tags, the port as a numeric one.
pub open spec fn dec_start_mysql_query(b: Seq<u8>, p: int, tbl: Seq<Seq<char>>) -> Option<
    (EventV, int),
> {
    match dec_uint(b, p) {
        None => None,
        Some((start, p1)) => match dec_uint(b, p1) {
            None => None,
            Some((tid, p2)) => match dec_uint(b, p2) {
                None => None,
                Some((sid, p3)) => match dec_uint(b, p3) {
                    None => None,
                    Some((pid, p4)) => match dec_table_str(b, p4, tbl) {
                        None => None,
                        Some((sql, p5)) => match dec_table_str(b, p5, tbl) {
                            None => None,
                            Some((database, p6)) => match dec_table_str(b, p6, tbl) {
                                None => None,
                                Some((user, p7)) => match dec_table_str(b, p7, tbl) {
                                    None => None,
                                    Some((host, p8)) => match dec_u16(b, p8) {
                                        None => None,
                                        Some((port, p9)) => Some(
                                            (
                                                EventV::StartSpan {
                                                    span: SpanV {
                                                        span_type: "sql"@,
                                                        trace_id: tid,
                                                        span_id: sid,
                                                        parent_id: pid,
                                                        name: "mysql.query"@,
                                                        resource: sql,
                                                        service: "unnamed-app-mysql"@,
                                                        error: 0,
                                                        start: start,
                                                        duration: 0,
                                                        meta: str_insert(
                                                            str_insert(
                                                                str_insert(
                                                                    str_insert(
                                                                        Seq::empty(),
                                                                        "db.type"@,
                                                                        "mysql"@,
                                                                    ),
                                                                    "db.user"@,
                                                                    user,
                                                                ),
                                                                "db.name"@,
                                                                database,
                                                            ),
                                                            "out.host"@,
                                                            host,
                                                        ),
                                                        metrics: str_insert(
                                                            Seq::empty(),
                                                            "out.port"@,
                                                            spec_f64_bits_of_u16(port),
                                                        ),
                                                    },
                                                },
                                                p9,
                                            ),
                                        ),
                                    },
                                },
                            },
                        },
                    },
                },
            },
        },
    }
}

/// Decode `n` strings and append them to the table.
pub open spec fn dec_strings_append(b: Seq<u8>, p: int, n: u32, tbl: Seq<Seq<char>>) -> Option<
    (Seq<Seq<char>>, int),
>
    decreases n,
{
    if n == 0 {
        Some((tbl, p))
    } else {
        match dec_str(b, p) {
            None => None,
            Some((s, p2)) => dec_strings_append(b, p2, (n - 1) as u32, tbl.push(s)),
        }
    }
}

/// Decode one event: its array header, its kind, and its body. A strings
/// event extends the table and yields no operation; an unknown kind skips
/// the remaining elements of its array and yields no operation.
pub open spec fn dec_event(b: Seq<u8>, p: int, tbl: Seq<Seq<char>>) -> Option<
    ((Option<EventV>, Seq<Seq<char>>), int),
> {
    match dec_array_len(b, p) {
        None => None,
        Some((size, p1)) => match dec_uint(b, p1) {
            None => None,
            Some((kind, p2)) => {
                if kind == 1 {
                    match dec_start_web_request(b, p2, tbl) {
                        None => None,
                        Some((ev, p3)) => Some(((Some(ev), tbl), p3)),
                    }
                } else if kind == 2 {
                    match dec_add_error(b, p2, tbl, size) {
                        None => None,
                        Some((ev, p3)) => Some(((Some(ev), tbl), p3)),
                    }
                } else if kind == 3 {
                    match dec_finish_web_request(b, p2) {
                        None => None,
                        Some((ev, p3)) => Some(((Some(ev), tbl), p3)),
                    }
                } else if kind == 4 {
                    match dec_start_span(b, p2, tbl) {
                        None => None,
                        Some((ev, p3)) => Some(((Some(ev), tbl), p3)),
                    }
                } else if kind == 5 {
                    match dec_finish_span(b, p2, tbl) {
                        None => None,
                        Some((ev, p3)) => Some(((Some(ev), tbl), p3)),
                    }
                } else if kind == 6 {
                    match dec_add_tags(b, p2, tbl) {
                        None => None,
                        Some((ev, p3)) => Some(((Some(ev), tbl), p3)),
                    }
                } else if kind == 7 {
                    match dec_array_len(b, p2) {
                        None => None,
                        Some((sn, p3)) => match dec_strings_append(b, p3, sn, tbl) {
                            None => None,
                            Some((tbl2, p4)) => Some(((None, tbl2), p4)),
                        },
                    }
                } else if kind == 8 {
                    match dec_start_mysql_query(b, p2, tbl) {
                        None => None,
                        Some((ev, p3)) => Some(((Some(ev), tbl), p3)),
                    }
                } else {
                    match spec_skip_n(b, p2, size as int - 1) {
                        None => None,
                        Some(p3) => Some(((None, tbl), p3)),
                    }
                }
            },
        },
    }
}

/// Decode `n` events, threading the string table, gathering the operations.
pub open spec fn dec_events(
    b: Seq<u8>,
    p: int,
    n: u32,
    tbl: Seq<Seq<char>>,
    acc: Seq<EventV>,
) -> Option<(Seq<EventV>, int)>
    decreases n,
{
    if n == 0 {
        Some((acc, p))
    } else {
        match dec_event(b, p, tbl) {
            None => None,
            Some(((evo, tbl2), p2)) => dec_events(
                b,
                p2,
                (n - 1) as u32,
                tbl2,
                match evo {
                    Some(ev) => acc.push(ev),
                    None => acc,
                },
            ),
        }
    }
}

/// Decode one whole payload into its sequence of operations: the outer array
/// header (length discarded), the initial string batch, and the events.
pub open spec fn dec_payload(b: Seq<u8>) -> Option<Seq<EventV>> {
    match dec_array_len(b, 0) {
        None => None,
        Some((outer, p0)) => match dec_array_len(b, p0) {
            None => None,
            Some((sn, p1)) => match dec_strings_append(b, p1, sn, Seq::empty()) {
                None => None,
                Some((tbl, p2)) => match dec_array_len(b, p2) {
                    None => None,
                    Some((en, p3)) => match dec_events(b, p3, en, tbl, Seq::empty()) {
                        None => None,
                        Some((evs, p4)) => Some(evs),
                    },
                },
            },
        },
    }
}

// ---------------------------------------------------------------------------
// Readers for payload pieces
// ---------------------------------------------------------------------------
/// Read a string-table reference: an index into the cumulative table. An
/// index out of range is malformed input.
fn read_table_str(buf: &Vec<u8>, pos: &mut usize, table: &Vec<String>) -> (r: Result<String, Error>)
    ensures
        match dec_table_str(buf@, *old(pos) as int, table.deep_view()) {
            Some(sp) => r matches Ok(s) && s@ == sp.0 && *final(pos) == sp.1,
            None => r is Err,
        },
{
    let i = match read_usize(buf, pos) {
        Ok(v) => v,
        Err(e) => {
            return Err(e);
        },
    };
    if i < table.len() {
        proof {
            assert(table.deep_view()[i as int] == table@[i as int]@);
        }
        Ok(table[i].clone())
    } else {
        Err(Error::MalformedInput)
    }
}

/// Read the two tag maps that trail several event kinds: string-valued tags
/// keyed and valued by table references, then numeric tags keyed by table
/// references with 64-bit float values.
#[verifier::loop_isolation(false)]
pub fn read_tags(buf: &Vec<u8>, pos: &mut usize, table: &Vec<String>) -> (r: Result<
    (Meta, Metrics),
    Error,
>)
    ensures
        match dec_tags(buf@, *old(pos) as int, table.deep_view()) {
            Some(tp) => {
                &&& r matches Ok(t) && t.0@ == tp.0.0 && t.1@ == tp.0.1 && t.0.wf() && t.1.wf()
                &&& *final(pos) == tp.1
            },
            None => r is Err,
        },
{
    let ghost tbl = table.deep_view();
    let mn = match read_map_len(buf, pos) {
        Ok(v) => v,
        Err(e) => {
            return Err(e);
        },
    };
    let ghost p1 = *pos as int;
    let mut meta = Meta::new();
    let mut i: u32 = 0;
    while i < mn
        invariant
            i <= mn,
            meta.wf(),
            tbl == table.deep_view(),
            dec_meta_entries(buf@, p1, mn, tbl, Seq::empty()) == dec_meta_entries(
                buf@,
                *pos as int,
                (mn - i) as u32,
                tbl,
                meta@,
            ),
        decreases mn - i,
    {
        let k = match read_table_str(buf, pos, table) {
            Ok(v) => v,
            Err(e) => {
                return Err(e);
            },
        };
        let v = match read_table_str(buf, pos, table) {
            Ok(v) => v,
            Err(e) => {
                return Err(e);
            },
        };
        meta.insert(k, v);
        i = i + 1;
    }
    let ghost p2g = *pos as int;
    proof {
        assert(dec_meta_entries(buf@, p1, mn, tbl, Seq::empty()) == Some((meta@, p2g)));
    }
    let xn = match read_map_len(buf, pos) {
        Ok(v) => v,
        Err(e) => {
            return Err(e);
        },
    };
    let ghost p3 = *pos as int;
    let mut metrics = Metrics::new();
    let mut j: u32 = 0;
    while j < xn
        invariant
            j <= xn,
            meta.wf(),
            metrics.wf(),
            tbl == table.deep_view(),
            dec_meta_entries(buf@, p1, mn, tbl, Seq::empty()) == Some((meta@, p2g)),
            dec_map_len(buf@, p2g) == Some((xn, p3)),
            dec_metrics_entries(buf@, p3, xn, tbl, Seq::empty()) == dec_metrics_entries(
                buf@,
                *pos as int,
                (xn - j) as u32,
                tbl,
                metrics@,
            ),
        decreases xn - j,
    {
        let k = match read_table_str(buf, pos, table) {
            Ok(v) => v,
            Err(e) => {
                return Err(e);
            },
        };
        let v = match read_f64_bits(buf, pos) {
            Ok(v) => v,
            Err(e) => {
                return Err(e);
            },
        };
        metrics.insert(k, v);
        j = j + 1;
    }
    Ok((meta, metrics))
}
// ---------------------------------------------------------------------------
// Per-kind event decoders
// ---------------------------------------------------------------------------
/// Decode a generic span start.
fn decode_start_span(buf: &Vec<u8>, pos: &mut usize, table: &Vec<String>) -> (r: Result<
    Event,
    Error,
>)
    ensures
        match dec_start_span(buf@, *old(pos) as int, table.deep_view()) {
            Some(ep) => r matches Ok(ev) && ev@ == ep.0 && event_wf(ep.0) && *final(pos) == ep.1,
            None => r is Err,
        },
{
    let start = match read_u64(buf, pos) {
        Ok(v) => v,
        Err(e) => {
            return Err(e);
        },
    };
    let trace_id = match read_u64(buf, pos) {
        Ok(v) => v,
        Err(e) => {
            return Err(e);
        },
    };
    let span_id = match read_u64(buf, pos) {
        Ok(v) => v,
        Err(e) => {
            return Err(e);
        },
    };
    let parent_id = match read_u64(buf, pos) {
        Ok(v) => v,
        Err(e) => {
            return Err(e);
        },
    };
    let service = match read_table_str(buf, pos, table) {
        Ok(v) => v,
        Err(e) => {
            return Err(e);
        },
    };
    let name = match read_table_str(buf, pos, table) {
        Ok(v) => v,
        Err(e) => {
            return Err(e);
        },
    };
    let resource = match read_table_str(buf, pos, table) {
        Ok(v) => v,
        Err(e) => {
            return Err(e);
        },
    };
    let (meta, metrics) = match read_tags(buf, pos, table) {
        Ok(v) => v,
        Err(e) => {
            return Err(e);
        },
    };
    let span_type = match read_table_str(buf, pos, table) {
        Ok(v) => v,
        Err(e) => {
            return Err(e);
        },
    };
    let span = Span {
        span_type,
        trace_id,
        span_id,
        parent_id,
        name,
        resource,
        service,
        error: 0,
        start,
        duration: 0,
        meta,
        metrics,
    };
    let ev = Event::StartSpan { span };
    proof {
        match dec_start_span(buf@, *old(pos) as int, table.deep_view()) {
            Some(ep) => {
                assert(ev@ =~~= ep.0);
            },
            None => {},
        }
    }
    Ok(ev)
}

/// Decode a generic span finish.
fn decode_finish_span(buf: &Vec<u8>, pos: &mut usize, table: &Vec<String>) -> (r: Result<
    Event,
    Error,
>)
    ensures
        match dec_finish_span(buf@, *old(pos) as int, table.deep_view()) {
            Some(ep) => r matches Ok(ev) && ev@ == ep.0 && event_wf(ep.0) && *final(pos) == ep.1,
            None => r is Err,
        },
{
    let finish = match read_u64(buf, pos) {
        Ok(v) => v,
        Err(e) => {
            return Err(e);
        },
    };
    let trace_id = match read_u64(buf, pos) {
        Ok(v) => v,
        Err(e) => {
            return Err(e);
        },
    };
    let span_id = match read_u64(buf, pos) {
        Ok(v) => v,
        Err(e) => {
            return Err(e);
        },
    };
    let (meta, metrics) = match read_tags(buf, pos, table) {
        Ok(v) => v,
        Err(e) => {
            return Err(e);
        },
    };
    let ev = Event::FinishSpan { trace_id, span_id, finish, meta, metrics };
    proof {
        match dec_finish_span(buf@, *old(pos) as int, table.deep_view()) {
            Some(ep) => {
                assert(ev@ =~~= ep.0);
            },
            None => {},
        }
    }
    Ok(ev)
}

/// Decode a tag merge.
fn decode_add_tags(buf: &Vec<u8>, pos: &mut usize, table: &Vec<String>) -> (r: Result<
    Event,
    Error,
>)
    ensures
        match dec_add_tags(buf@, *old(pos) as int, table.deep_view()) {
            Some(ep) => r matches Ok(ev) && ev@ == ep.0 && event_wf(ep.0) && *final(pos) == ep.1,
            None => r is Err,
        },
{
    let ignored = match read_u64(buf, pos) {
        Ok(v) => v,
        Err(e) => {
            return Err(e);
        },
    };
    let trace_id = match read_u64(buf, pos) {
        Ok(v) => v,
        Err(e) => {
            return Err(e);
        },
    };
    let span_id = match read_u64(buf, pos) {
        Ok(v) => v,
        Err(e) => {
            return Err(e);
        },
    };
    let (meta, metrics) = match read_tags(buf, pos, table) {
        Ok(v) => v,
        Err(e) => {
            return Err(e);
        },
    };
    let ev = Event::AddTags { trace_id, span_id, meta, metrics };
    proof {
        match dec_add_tags(buf@, *old(pos) as int, table.deep_view()) {
            Some(ep) => {
                assert(ev@ =~~= ep.0);
            },
            None => {},
        }
    }
    Ok(ev)
}

/// Decode an error mark, branching on the event's array length: the short
/// shape carries only the flag, the long one adds the three error tags.
fn decode_add_error(
    interner: &mut Interner,
    buf: &Vec<u8>,
    pos: &mut usize,
    table: &Vec<String>,
    size: u32,
) -> (r: Result<Event, Error>)
    requires
        old(interner).wf(),
    ensures
        final(interner).wf(),
        match dec_add_error(buf@, *old(pos) as int, table.deep_view(), size) {
            Some(ep) => r matches Ok(ev) && ev@ == ep.0 && event_wf(ep.0) && *final(pos) == ep.1,
            None => r is Err,
        },
{
    let ignored = match read_u64(buf, pos) {
        Ok(v) => v,
        Err(e) => {
            return Err(e);
        },
    };
    let trace_id = match read_u64(buf, pos) {
        Ok(v) => v,
        Err(e) => {
            return Err(e);
        },
    };
    let span_id = match read_u64(buf, pos) {
        Ok(v) => v,
        Err(e) => {
            return Err(e);
        },
    };
    let mut meta = Meta::new();
    if size >= 4 {
        let name_key = interner.from_str("error.name");
        let name = match read_table_str(buf, pos, table) {
            Ok(v) => v,
            Err(e) => {
                return Err(e);
            },
        };
        let message_key = interner.from_str("error.message");
        let message = match read_table_str(buf, pos, table) {
            Ok(v) => v,
            Err(e) => {
                return Err(e);
            },
        };
        let stack_key = interner.from_str("error.stack");
        let stack = match read_table_str(buf, pos, table) {
            Ok(v) => v,
            Err(e) => {
                return Err(e);
            },
        };
        meta.insert(name_key, name);
        meta.insert(message_key, message);
        meta.insert(stack_key, stack);
    }
    let ev = Event::AddError { trace_id, span_id, meta };
    proof {
        match dec_add_error(buf@, *old(pos) as int, table.deep_view(), size) {
            Some(ep) => {
                assert(ev@ =~~= ep.0);
            },
            None => {},
        }
    }
    Ok(ev)
}

/// Decode a web-request start, deriving the span's name, resource, and tags.
fn decode_start_web_request(
    interner: &mut Interner,
    buf: &Vec<u8>,
    pos: &mut usize,
    table: &Vec<String>,
) -> (r: Result<Event, Error>)
    requires
        old(interner).wf(),
    ensures
        final(interner).wf(),
        match dec_start_web_request(buf@, *old(pos) as int, table.deep_view()) {
            Some(ep) => r matches Ok(ev) && ev@ == ep.0 && event_wf(ep.0) && *final(pos) == ep.1,
            None => r is Err,
        },
{
    let start = match read_u64(buf, pos) {
        Ok(v) => v,
        Err(e) => {
            return Err(e);
        },
    };
    let trace_id = match read_u64(buf, pos) {
        Ok(v) => v,
        Err(e) => {
            return Err(e);
        },
    };
    let span_id = match read_u64(buf, pos) {
        Ok(v) => v,
        Err(e) => {
            return Err(e);
        },
    };
    let parent_id = match read_u64(buf, pos) {
        Ok(v) => v,
        Err(e) => {
            return Err(e);
        },
    };
    let component = match read_table_str(buf, pos, table) {
        Ok(v) => v,
        Err(e) => {
            return Err(e);
        },
    };
    let method = match read_table_str(buf, pos, table) {
        Ok(v) => v,
        Err(e) => {
            return Err(e);
        },
    };
    let url = match read_table_str(buf, pos, table) {
        Ok(v) => v,
        Err(e) => {
            return Err(e);
        },
    };
    let route = match read_table_str(buf, pos, table) {
        Ok(v) => v,
        Err(e) => {
            return Err(e);
        },
    };
    let name = component.concat(".request");
    let resource = method.clone().concat(" ").concat(route.as_str());
    let mut meta = Meta::new();
    meta.insert(interner.from_str("http.method"), method);
    meta.insert(interner.from_str("http.url"), url);
    let span = Span {
        span_type: interner.from_str("web"),
        trace_id,
        span_id,
        parent_id,
        name,
        resource,
        service: interner.from_str("unnamed-app"),
        error: 0,
        start,
        duration: 0,
        meta,
        metrics: Metrics::new(),
    };
    let ev = Event::StartSpan { span };
    proof {
        match dec_start_web_request(buf@, *old(pos) as int, table.deep_view()) {
            Some(ep) => {
                assert(ev@ =~~= ep.0);
            },
            None => {},
        }
    }
    Ok(ev)
}

/// Decode a web-request finish: the 16-bit status code lands as its decimal
/// rendering under the status tag key.
fn decode_finish_web_request(interner: &mut Interner, buf: &Vec<u8>, pos: &mut usize) -> (r: Result<
    Event,
    Error,
>)
    requires
        old(interner).wf(),
    ensures
        final(interner).wf(),
        match dec_finish_web_request(buf@, *old(pos) as int) {
            Some(ep) => r matches Ok(ev) && ev@ == ep.0 && event_wf(ep.0) && *final(pos) == ep.1,
            None => r is Err,
        },
{
    let finish = match read_u64(buf, pos) {
        Ok(v) => v,
        Err(e) => {
            return Err(e);
        },
    };
    let trace_id = match read_u64(buf, pos) {
        Ok(v) => v,
        Err(e) => {
            return Err(e);
        },
    };
    let span_id = match read_u64(buf, pos) {
        Ok(v) => v,
        Err(e) => {
            return Err(e);
        },
    };
    let status_code_key = interner.from_str("http.status_code");
    let status = match read_u16(buf, pos) {
        Ok(v) => v,
        Err(e) => {
            return Err(e);
        },
    };
    let mut meta = Meta::new();
    meta.insert(status_code_key, u16_to_decimal(status));
    let ev = Event::FinishSpan { trace_id, span_id, finish, meta, metrics: Metrics::new() };
    proof {
        match dec_finish_web_request(buf@, *old(pos) as int) {
            Some(ep) => {
                assert(ev@ =~~= ep.0);
            },
            None => {},
        }
    }
    Ok(ev)
}

/// Decode a database-query start: the SQL text becomes the resource, the
/// connection details become tags, the port a numeric one.
fn decode_start_mysql_query(
    interner: &mut Interner,
    buf: &Vec<u8>,
    pos: &mut usize,
    table: &Vec<String>,
) -> (r: Result<Event, Error>)
    requires
        old(interner).wf(),
    ensures
        final(interner).wf(),
        match dec_start_mysql_query(buf@, *old(pos) as int, table.deep_view()) {
            Some(ep) => r matches Ok(ev) && ev@ == ep.0 && event_wf(ep.0) && *final(pos) == ep.1,
            None => r is Err,
        },
{
    let start = match read_u64(buf, pos) {
        Ok(v) => v,
        Err(e) => {
            return Err(e);
        },
    };
    let trace_id = match read_u64(buf, pos) {
        Ok(v) => v,
        Err(e) => {
            return Err(e);
        },
    };
    let span_id = match read_u64(buf, pos) {
        Ok(v) => v,
        Err(e) => {
            return Err(e);
        },
    };
    let parent_id = match read_u64(buf, pos) {
        Ok(v) => v,
        Err(e) => {
            return Err(e);
        },
    };
    let sql = match read_table_str(buf, pos, table) {
        Ok(v) => v,
        Err(e) => {
            return Err(e);
        },
    };
    let database = match read_table_str(buf, pos, table) {
        Ok(v) => v,
        Err(e) => {
            return Err(e);
        },
    };
    let user = match read_table_str(buf, pos, table) {
        Ok(v) => v,
        Err(e) => {
            return Err(e);
        },
    };
    let host = match read_table_str(buf, pos, table) {
        Ok(v) => v,
        Err(e) => {
            return Err(e);
        },
    };
    let port = match read_u16(buf, pos) {
        Ok(v) => v,
        Err(e) => {
            return Err(e);
        },
    };
    let mut meta = Meta::new();
    meta.insert(interner.from_str("db.type"), interner.from_str("mysql"));
    meta.insert(interner.from_str("db.user"), user);
    meta.insert(interner.from_str("db.name"), database);
    meta.insert(interner.from_str("out.host"), host);
    let mut metrics = Metrics::new();
    metrics.insert(interner.from_str("out.port"), f64_bits_of_u16(port));
    let span = Span {
        span_type: interner.from_str("sql"),
        trace_id,
        span_id,
        parent_id,
        name: interner.from_str("mysql.query"),
        resource: sql,
        service: interner.from_str("unnamed-app-mysql"),
        error: 0,
        start,
        duration: 0,
        meta,
        metrics,
    };
    let ev = Event::StartSpan { span };
    proof {
        match dec_start_mysql_query(buf@, *old(pos) as int, table.deep_view()) {
            Some(ep) => {
                assert(ev@ =~~= ep.0);
            },
            None => {},
        }
    }
    Ok(ev)
}

/// Decode a strings event: an array of strings appended to the cumulative
/// table.
#[verifier::loop_isolation(false)]
fn decode_strings(buf: &Vec<u8>, pos: &mut usize, table: &mut Vec<String>) -> (r: Result<
    (),
    Error,
>)
    ensures
        match dec_array_len(buf@, *old(pos) as int) {
            None => r is Err,
            Some(np) => match dec_strings_append(buf@, np.1, np.0, old(table).deep_view()) {
                None => r is Err,
                Some(tp) => r is Ok && final(table).deep_view() == tp.0 && *final(pos) == tp.1,
            },
        },
{
    let sn = match read_array_len(buf, pos) {
        Ok(v) => v,
        Err(e) => {
            return Err(e);
        },
    };
    let ghost p1 = *pos as int;
    let ghost tbl0 = table.deep_view();
    let mut i: u32 = 0;
    while i < sn
        invariant
            i <= sn,
            dec_strings_append(buf@, p1, sn, tbl0) == dec_strings_append(
                buf@,
                *pos as int,
                (sn - i) as u32,
                table.deep_view(),
            ),
        decreases sn - i,
    {
        let ghost pre = table.deep_view();
        let s = match read_str(buf, pos) {
            Ok(v) => v,
            Err(e) => {
                return Err(e);
            },
        };
        table.push(s);
        proof {
            assert(table.deep_view() =~= pre.push(table@[table@.len() - 1]@));
        }
        i = i + 1;
    }
    Ok(())
}

/// Decode one event: its array header, its kind, and its body. A strings
/// event extends the table and yields no operation; an unknown kind skips
/// the rest of its array and yields no operation.
fn decode_event(
    interner: &mut Interner,
    buf: &Vec<u8>,
    pos: &mut usize,
    table: &mut Vec<String>,
) -> (r: Result<Option<Event>, Error>)
    requires
        old(interner).wf(),
    ensures
        final(interner).wf(),
        match dec_event(buf@, *old(pos) as int, old(table).deep_view()) {
            None => r is Err,
            Some(rp) => ({
                &&& r is Ok
                &&& *final(pos) == rp.1
                &&& final(table).deep_view() == rp.0.1
                &&& match rp.0.0 {
                    Some(ev) => r matches Ok(Some(e2)) && e2@ == ev && event_wf(ev),
                    None => r == Ok::<Option<Event>, Error>(None),
                }
            }),
        },
{
    let size = match read_array_len(buf, pos) {
        Ok(v) => v,
        Err(e) => {
            return Err(e);
        },
    };
    let kind = match read_u64(buf, pos) {
        Ok(v) => v,
        Err(e) => {
            return Err(e);
        },
    };
    if kind == 1 {
        match decode_start_web_request(interner, buf, pos, table) {
            Ok(ev) => Ok(Some(ev)),
            Err(e) => Err(e),
        }
    } else if kind == 2 {
        match decode_add_error(interner, buf, pos, table, size) {
            Ok(ev) => Ok(Some(ev)),
            Err(e) => Err(e),
        }
    } else if kind == 3 {
        match decode_finish_web_request(interner, buf, pos) {
            Ok(ev) => Ok(Some(ev)),
            Err(e) => Err(e),
        }
    } else if kind == 4 {
        match decode_start_span(buf, pos, table) {
            Ok(ev) => Ok(Some(ev)),
            Err(e) => Err(e),
        }
    } else if kind == 5 {
        match decode_finish_span(buf, pos, table) {
            Ok(ev) => Ok(Some(ev)),
            Err(e) => Err(e),
        }
    } else if kind == 6 {
        match decode_add_tags(buf, pos, table) {
            Ok(ev) => Ok(Some(ev)),
            Err(e) => Err(e),
        }
    } else if kind == 7 {
        match decode_strings(buf, pos, table) {
            Ok(()) => Ok(None),
            Err(e) => Err(e),
        }
    } else if kind == 8 {
        match decode_start_mysql_query(interner, buf, pos, table) {
            Ok(ev) => Ok(Some(ev)),
            Err(e) => Err(e),
        }
    } else {
        let count: u64 = if size >= 1 {
            (size - 1) as u64
        } else {
            0
        };
        match skip_values(buf, pos, count) {
            Ok(()) => Ok(None),
            Err(e) => Err(e),
        }
    }
}

/// Decode one whole payload into its sequence of operations.
#[verifier::loop_isolation(false)]
fn decode_payload(interner: &mut Interner, buf: &Vec<u8>) -> (r: Result<Vec<Event>, Error>)
    requires
        old(interner).wf(),
    ensures
        final(interner).wf(),
        match dec_payload(buf@) {
            Some(evs) => r matches Ok(v) && events_view(v@) == evs && (forall|i: int|
                0 <= i < v@.len() ==> event_wf(#[trigger] v@[i]@)),
            None => r is Err,
        },
{
    let mut pos: usize = 0;
    let outer = match read_array_len(buf, &mut pos) {
        Ok(v) => v,
        Err(e) => {
            return Err(e);
        },
    };
    let mut table: Vec<String> = Vec::new();
    proof {
        assert(table.deep_view() =~= Seq::<Seq<char>>::empty());
    }
    match decode_strings(buf, &mut pos, &mut table) {
        Ok(()) => {},
        Err(e) => {
            return Err(e);
        },
    }
    let en = match read_array_len(buf, &mut pos) {
        Ok(v) => v,
        Err(e) => {
            return Err(e);
        },
    };
    let ghost p3 = pos as int;
    let ghost tbl0 = table.deep_view();
    let mut events: Vec<Event> = Vec::new();
    proof {
        assert(events_view(events@) =~= Seq::<EventV>::empty());
    }
    let mut i: u32 = 0;
    while i < en
        invariant
            i <= en,
            interner.wf(),
            dec_events(buf@, p3, en, tbl0, Seq::<EventV>::empty()) == dec_events(
                buf@,
                pos as int,
                (en - i) as u32,
                table.deep_view(),
                events_view(events@),
            ),
            forall|j: int| 0 <= j < events@.len() ==> event_wf(#[trigger] events@[j]@),
        decreases en - i,
    {
        let ghost pre_events = events_view(events@);
        match decode_event(interner, buf, &mut pos, &mut table) {
            Ok(Some(ev)) => {
                events.push(ev);
                proof {
                    assert(events_view(events@) =~= pre_events.push(ev@));
                }
            },
            Ok(None) => {},
            Err(e) => {
                return Err(e);
            },
        }
        i = i + 1;
    }
    Ok(events)
}

// ---------------------------------------------------------------------------
// The processor
// ---------------------------------------------------------------------------
/// Apply one decoded event to the aggregate.
pub fn apply_event(traces: &mut Traces, e: Event)
    requires
        old(traces).wf(),
        event_wf(e@),
    ensures
        final(traces)@ == spec_apply_event(old(traces)@, e@),
        final(traces).wf(),
{
    match e {
        Event::StartSpan { span } => traces.start_span(span),
        Event::FinishSpan { trace_id, span_id, finish, meta, metrics } => traces.finish_span(
            trace_id,
            span_id,
            finish,
            &meta,
            &metrics,
        ),
        Event::AddTags { trace_id, span_id, meta, metrics } => traces.add_tags(
            trace_id,
            span_id,
            &meta,
            &metrics,
        ),
        Event::AddError { trace_id, span_id, meta } => traces.add_error(trace_id, span_id, &meta),
    }
}

/// The per-connection stream processor: the trace aggregate it assembles and
/// the interner it draws well-known strings from.
pub struct Processor {
    pub traces: Traces,
    pub strings: Interner,
}

impl Processor {
    /// The aggregate and the interner are both well formed.
    pub open spec fn wf(&self) -> bool {
        self.traces.wf() && self.strings.wf()
    }

    /// A fresh processor with an empty aggregate.
    pub fn new() -> (r: Processor)
        ensures
            r.traces@ == Seq::<(u64, TraceV)>::empty(),
            r.wf(),
    {
        Processor { traces: Traces::new(), strings: Interner::new() }
    }

    /// Consume exactly one payload, mutating the aggregate. A malformed
    /// payload (any codec violation, bad UTF-8, or string index out of
    /// range) leaves the aggregate untouched and reports the error.
    #[verifier::loop_isolation(false)]
    pub fn process(&mut self, payload: &Vec<u8>) -> (r: Result<(), Error>)
        requires
            old(self).wf(),
        ensures
            final(self).wf(),
            match dec_payload(payload@) {
                Some(evs) => r == Ok::<(), Error>(()) && final(self).traces@ == spec_apply_events(
                    old(self).traces@,
                    evs,
                ),
                None => r == Err::<(), Error>(Error::MalformedInput) && final(self).traces@ == old(
                    self,
                ).traces@,
            },
    {
        let mut events = match decode_payload(&mut self.strings, payload) {
            Ok(v) => v,
            Err(e) => {
                return Err(e);
            },
        };
        let ghost evs = events_view(events@);
        let ghost m0 = self.traces@;
        while events.len() > 0
            invariant
                self.traces.wf(),
                self.strings.wf(),
                spec_apply_events(m0, evs) == spec_apply_events(
                    self.traces@,
                    events_view(events@),
                ),
                forall|j: int| 0 <= j < events@.len() ==> event_wf(#[trigger] events@[j]@),
            decreases events@.len(),
        {
            let ghost pre = events_view(events@);
            let e = events.remove(0);
            proof {
                assert(pre[0] == e@);
                assert(events_view(events@) =~= pre.drop_first());
            }
            apply_event(&mut self.traces, e);
        }
        Ok(())
    }

    /// Extract every complete trace (`started == finished`), remove it from
    /// the aggregate, and hand the batch back; incomplete traces persist.
    /// Afterwards the aggregate holds no complete trace, so a second flush
    /// with no intervening payload yields the empty batch.
    pub fn flush(&mut self) -> (r: Traces)
        requires
            old(self).wf(),
        ensures
            r@ == spec_finished_part(old(self).traces@),
            final(self).traces@ == spec_unfinished_part(old(self).traces@),
            final(self).wf(),
            r.wf(),
            forall|a: int|
                0 <= a < final(self).traces@.len() ==> (#[trigger] final(self).traces@[a]).1.started
                    != final(self).traces@[a].1.finished,
    {
        proof {
            lemma_unfinished_incomplete(self.traces@);
        }
        self.traces.drain_finished()
    }
}

} // verus!
