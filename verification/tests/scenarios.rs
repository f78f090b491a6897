//! End-to-end scenarios: payloads built with the library's writers, run
//! through the processor, flushed, and encoded; the wire output is checked
//! against the `rmp` reference implementation of MessagePack.

use ddcollector::exporting::agent_v04;
use ddcollector::exporting::agent_v05;
use ddcollector::msgpack::{write_array_len, write_map_len, write_str, write_uint};
use ddcollector::processing::Processor;
use ddcollector::Error;

fn payload_header(wr: &mut Vec<u8>, strs: &[&str]) {
    write_array_len(wr, 2);
    write_array_len(wr, strs.len() as u32);
    for s in strs {
        write_str(wr, s);
    }
}

fn rstr(rd: &mut &[u8]) -> String {
    let len = rmp::decode::read_str_len(rd).unwrap() as usize;
    let mut buf = vec![0u8; len];
    std::io::Read::read_exact(rd, &mut buf).unwrap();
    String::from_utf8(buf).unwrap()
}

fn rint(rd: &mut &[u8]) -> u64 {
    rmp::decode::read_int(rd).unwrap()
}

/// The single-root-span payload: strings `["svc","op","res","k","v","t"]`,
/// a generic start, and a generic finish.
fn single_span_payload() -> Vec<u8> {
    let mut wr = Vec::new();
    payload_header(&mut wr, &["svc", "op", "res", "k", "v", "t"]);
    write_array_len(&mut wr, 2);
    // StartSpan: [4, 1000, 7, 1, 0, svc, op, res, {k: v}, {}, t]
    write_array_len(&mut wr, 11);
    write_uint(&mut wr, 4);
    write_uint(&mut wr, 1000);
    write_uint(&mut wr, 7);
    write_uint(&mut wr, 1);
    write_uint(&mut wr, 0);
    write_uint(&mut wr, 0);
    write_uint(&mut wr, 1);
    write_uint(&mut wr, 2);
    write_map_len(&mut wr, 1);
    write_uint(&mut wr, 3);
    write_uint(&mut wr, 4);
    write_map_len(&mut wr, 0);
    write_uint(&mut wr, 5);
    // FinishSpan: [5, 2500, 7, 1, {}, {}]
    write_array_len(&mut wr, 6);
    write_uint(&mut wr, 5);
    write_uint(&mut wr, 2500);
    write_uint(&mut wr, 7);
    write_uint(&mut wr, 1);
    write_map_len(&mut wr, 0);
    write_map_len(&mut wr, 0);
    wr
}

#[test]
fn single_root_span_start_finish() {
    let mut p = Processor::new();
    p.process(&single_span_payload()).unwrap();
    let finished = p.flush();
    assert_eq!(finished.len(), 1);
    let trace = finished.get(7).unwrap();
    assert_eq!(trace.started, 1);
    assert_eq!(trace.finished, 1);
    assert_eq!(trace.spans.len(), 1);
    let span = trace.get_span(1).unwrap();
    assert_eq!(span.service, "svc");
    assert_eq!(span.name, "op");
    assert_eq!(span.resource, "res");
    assert_eq!(span.span_type, "t");
    assert_eq!(span.start, 1000);
    assert_eq!(span.duration, 1500);
    assert_eq!(span.parent_id, 0);
    assert_eq!(span.error, 0);
    assert_eq!(span.meta.get(&"k".to_string()).unwrap().as_str(), "v");
    assert_eq!(span.metrics.len(), 0);
}

#[test]
fn two_spans_parent_finishes_first() {
    let mut wr = Vec::new();
    payload_header(&mut wr, &["svc", "op", "res", "t"]);
    write_array_len(&mut wr, 4);
    for (span_id, parent_id, start) in [(1u64, 0u64, 100u64), (2, 1, 200)] {
        write_array_len(&mut wr, 11);
        write_uint(&mut wr, 4);
        write_uint(&mut wr, start);
        write_uint(&mut wr, 9);
        write_uint(&mut wr, span_id);
        write_uint(&mut wr, parent_id);
        write_uint(&mut wr, 0);
        write_uint(&mut wr, 1);
        write_uint(&mut wr, 2);
        write_map_len(&mut wr, 0);
        write_map_len(&mut wr, 0);
        write_uint(&mut wr, 3);
    }
    for (span_id, finish) in [(1u64, 400u64), (2, 300)] {
        write_array_len(&mut wr, 6);
        write_uint(&mut wr, 5);
        write_uint(&mut wr, finish);
        write_uint(&mut wr, 9);
        write_uint(&mut wr, span_id);
        write_map_len(&mut wr, 0);
        write_map_len(&mut wr, 0);
    }
    let mut p = Processor::new();
    p.process(&wr).unwrap();
    let finished = p.flush();
    assert_eq!(finished.len(), 1);
    let trace = finished.get(9).unwrap();
    assert_eq!(trace.started, 2);
    assert_eq!(trace.finished, 2);
    assert_eq!(trace.spans.len(), 2);
    assert_eq!(trace.get_span(1).unwrap().duration, 300);
    assert_eq!(trace.get_span(2).unwrap().duration, 100);
}

#[test]
fn child_not_finished_trace_persists() {
    let mut wr = Vec::new();
    payload_header(&mut wr, &["svc", "op", "res", "t"]);
    write_array_len(&mut wr, 3);
    for (span_id, parent_id) in [(1u64, 0u64), (2, 1)] {
        write_array_len(&mut wr, 11);
        write_uint(&mut wr, 4);
        write_uint(&mut wr, 100);
        write_uint(&mut wr, 9);
        write_uint(&mut wr, span_id);
        write_uint(&mut wr, parent_id);
        write_uint(&mut wr, 0);
        write_uint(&mut wr, 1);
        write_uint(&mut wr, 2);
        write_map_len(&mut wr, 0);
        write_map_len(&mut wr, 0);
        write_uint(&mut wr, 3);
    }
    write_array_len(&mut wr, 6);
    write_uint(&mut wr, 5);
    write_uint(&mut wr, 400);
    write_uint(&mut wr, 9);
    write_uint(&mut wr, 1);
    write_map_len(&mut wr, 0);
    write_map_len(&mut wr, 0);
    let mut p = Processor::new();
    p.process(&wr).unwrap();
    {
        let trace = p.traces.get(9).unwrap();
        assert_eq!(trace.started, 2);
        assert_eq!(trace.finished, 1);
    }
    let finished = p.flush();
    assert_eq!(finished.len(), 0);
    let trace = p.traces.get(9).unwrap();
    assert_eq!(trace.started, 2);
    assert_eq!(trace.finished, 1);
}

#[test]
fn unknown_span_finish_is_discarded() {
    let mut wr = Vec::new();
    payload_header(&mut wr, &[]);
    write_array_len(&mut wr, 1);
    write_array_len(&mut wr, 6);
    write_uint(&mut wr, 5);
    write_uint(&mut wr, 2500);
    write_uint(&mut wr, 42);
    write_uint(&mut wr, 99);
    write_map_len(&mut wr, 0);
    write_map_len(&mut wr, 0);
    let mut p = Processor::new();
    p.process(&wr).unwrap();
    assert_eq!(p.traces.len(), 0);
    let finished = p.flush();
    assert_eq!(finished.len(), 0);
}

#[test]
fn flush_twice_exports_nothing_new() {
    let mut p = Processor::new();
    p.process(&single_span_payload()).unwrap();
    let first = p.flush();
    assert_eq!(first.len(), 1);
    let second = p.flush();
    assert_eq!(second.len(), 0);
}

#[test]
fn flush_leaves_no_complete_trace() {
    let mut p = Processor::new();
    p.process(&single_span_payload()).unwrap();
    p.flush();
    for i in 0..p.traces.pairs.len() {
        let t = &p.traces.pairs[i].1;
        assert_ne!(t.started, t.finished);
    }
}

#[test]
fn web_request_start_and_finish() {
    let mut wr = Vec::new();
    payload_header(&mut wr, &["http", "GET", "/a?b=c", "/a"]);
    write_array_len(&mut wr, 2);
    // StartWebRequest: [1, 1000, 1, 1, 0, component, method, url, route]
    write_array_len(&mut wr, 9);
    write_uint(&mut wr, 1);
    write_uint(&mut wr, 1000);
    write_uint(&mut wr, 1);
    write_uint(&mut wr, 1);
    write_uint(&mut wr, 0);
    write_uint(&mut wr, 0);
    write_uint(&mut wr, 1);
    write_uint(&mut wr, 2);
    write_uint(&mut wr, 3);
    // FinishWebRequest: [3, 2000, 1, 1, 204]
    write_array_len(&mut wr, 5);
    write_uint(&mut wr, 3);
    write_uint(&mut wr, 2000);
    write_uint(&mut wr, 1);
    write_uint(&mut wr, 1);
    write_uint(&mut wr, 204);
    let mut p = Processor::new();
    p.process(&wr).unwrap();
    let finished = p.flush();
    let trace = finished.get(1).unwrap();
    let span = trace.get_span(1).unwrap();
    assert_eq!(span.name, "http.request");
    assert_eq!(span.resource, "GET /a");
    assert_eq!(span.span_type, "web");
    assert_eq!(span.service, "unnamed-app");
    assert_eq!(span.meta.get(&"http.method".to_string()).unwrap().as_str(), "GET");
    assert_eq!(span.meta.get(&"http.url".to_string()).unwrap().as_str(), "/a?b=c");
    assert_eq!(
        span.meta.get(&"http.status_code".to_string()).unwrap().as_str(),
        "204"
    );
    assert_eq!(span.duration, 1000);
}

#[test]
fn mysql_query_start() {
    let mut wr = Vec::new();
    payload_header(&mut wr, &["SELECT 1", "db1", "u1", "h1"]);
    write_array_len(&mut wr, 1);
    // StartMySQLQuery: [8, 50, 3, 4, 0, sql, database, user, host, port]
    write_array_len(&mut wr, 10);
    write_uint(&mut wr, 8);
    write_uint(&mut wr, 50);
    write_uint(&mut wr, 3);
    write_uint(&mut wr, 4);
    write_uint(&mut wr, 0);
    write_uint(&mut wr, 0);
    write_uint(&mut wr, 1);
    write_uint(&mut wr, 2);
    write_uint(&mut wr, 3);
    write_uint(&mut wr, 3306);
    let mut p = Processor::new();
    p.process(&wr).unwrap();
    let trace_holder = p.traces.get(3).unwrap();
    let span = trace_holder.get_span(4).unwrap();
    assert_eq!(span.span_type, "sql");
    assert_eq!(span.name, "mysql.query");
    assert_eq!(span.resource, "SELECT 1");
    assert_eq!(span.service, "unnamed-app-mysql");
    assert_eq!(span.meta.get(&"db.type".to_string()).unwrap().as_str(), "mysql");
    assert_eq!(span.meta.get(&"db.user".to_string()).unwrap().as_str(), "u1");
    assert_eq!(span.meta.get(&"db.name".to_string()).unwrap().as_str(), "db1");
    assert_eq!(span.meta.get(&"out.host".to_string()).unwrap().as_str(), "h1");
    assert_eq!(
        span.metrics.get(&"out.port".to_string()).unwrap(),
        (3306u16 as f64).to_bits()
    );
}

#[test]
fn add_error_marks_span() {
    let mut wr = Vec::new();
    payload_header(&mut wr, &["svc", "op", "res", "t", "E", "boom", "stack..."]);
    write_array_len(&mut wr, 2);
    write_array_len(&mut wr, 11);
    write_uint(&mut wr, 4);
    write_uint(&mut wr, 100);
    write_uint(&mut wr, 5);
    write_uint(&mut wr, 6);
    write_uint(&mut wr, 0);
    write_uint(&mut wr, 0);
    write_uint(&mut wr, 1);
    write_uint(&mut wr, 2);
    write_map_len(&mut wr, 0);
    write_map_len(&mut wr, 0);
    write_uint(&mut wr, 3);
    // AddError with the index triple: [2, 0, 5, 6, name, message, stack]
    write_array_len(&mut wr, 7);
    write_uint(&mut wr, 2);
    write_uint(&mut wr, 0);
    write_uint(&mut wr, 5);
    write_uint(&mut wr, 6);
    write_uint(&mut wr, 4);
    write_uint(&mut wr, 5);
    write_uint(&mut wr, 6);
    let mut p = Processor::new();
    p.process(&wr).unwrap();
    let trace_holder = p.traces.get(5).unwrap();
    let span = trace_holder.get_span(6).unwrap();
    assert_eq!(span.error, 1);
    assert_eq!(span.meta.get(&"error.name".to_string()).unwrap().as_str(), "E");
    assert_eq!(span.meta.get(&"error.message".to_string()).unwrap().as_str(), "boom");
    assert_eq!(
        span.meta.get(&"error.stack".to_string()).unwrap().as_str(),
        "stack..."
    );
}

#[test]
fn add_error_short_form_only_flags() {
    let mut wr = Vec::new();
    payload_header(&mut wr, &["svc", "op", "res", "t"]);
    write_array_len(&mut wr, 2);
    write_array_len(&mut wr, 11);
    write_uint(&mut wr, 4);
    write_uint(&mut wr, 100);
    write_uint(&mut wr, 5);
    write_uint(&mut wr, 6);
    write_uint(&mut wr, 0);
    write_uint(&mut wr, 0);
    write_uint(&mut wr, 1);
    write_uint(&mut wr, 2);
    write_map_len(&mut wr, 0);
    write_map_len(&mut wr, 0);
    write_uint(&mut wr, 3);
    // AddError, short shape: the declared length below four announces that
    // the index triple is absent; the flag fields follow as usual.
    write_array_len(&mut wr, 3);
    write_uint(&mut wr, 2);
    write_uint(&mut wr, 0);
    write_uint(&mut wr, 5);
    write_uint(&mut wr, 6);
    let mut p = Processor::new();
    p.process(&wr).unwrap();
    let trace_holder = p.traces.get(5).unwrap();
    let span = trace_holder.get_span(6).unwrap();
    assert_eq!(span.error, 1);
    assert_eq!(span.meta.len(), 0);
}

#[test]
fn unknown_event_kinds_are_skipped() {
    let mut wr = Vec::new();
    payload_header(&mut wr, &["svc", "op", "res", "t"]);
    write_array_len(&mut wr, 2);
    // An event of an unknown kind whose body holds nested values.
    write_array_len(&mut wr, 4);
    write_uint(&mut wr, 99);
    write_str(&mut wr, "ignored");
    write_map_len(&mut wr, 1);
    write_str(&mut wr, "zzz");
    write_array_len(&mut wr, 2);
    write_uint(&mut wr, 1);
    write_uint(&mut wr, 2);
    write_uint(&mut wr, 7);
    // Then a valid StartSpan that must still land.
    write_array_len(&mut wr, 11);
    write_uint(&mut wr, 4);
    write_uint(&mut wr, 100);
    write_uint(&mut wr, 12);
    write_uint(&mut wr, 1);
    write_uint(&mut wr, 0);
    write_uint(&mut wr, 0);
    write_uint(&mut wr, 1);
    write_uint(&mut wr, 2);
    write_map_len(&mut wr, 0);
    write_map_len(&mut wr, 0);
    write_uint(&mut wr, 3);
    let mut p = Processor::new();
    p.process(&wr).unwrap();
    assert_eq!(p.traces.len(), 1);
    assert!(p.traces.get(12).is_some());
}

#[test]
fn strings_event_extends_the_table() {
    let mut wr = Vec::new();
    payload_header(&mut wr, &["svc", "op"]);
    write_array_len(&mut wr, 2);
    // Strings: [7, ["res","t"]]
    write_array_len(&mut wr, 2);
    write_uint(&mut wr, 7);
    write_array_len(&mut wr, 2);
    write_str(&mut wr, "res");
    write_str(&mut wr, "t");
    write_array_len(&mut wr, 11);
    write_uint(&mut wr, 4);
    write_uint(&mut wr, 100);
    write_uint(&mut wr, 2);
    write_uint(&mut wr, 1);
    write_uint(&mut wr, 0);
    write_uint(&mut wr, 0);
    write_uint(&mut wr, 1);
    write_uint(&mut wr, 2);
    write_map_len(&mut wr, 0);
    write_map_len(&mut wr, 0);
    write_uint(&mut wr, 3);
    let mut p = Processor::new();
    p.process(&wr).unwrap();
    let trace_holder = p.traces.get(2).unwrap();
    let span = trace_holder.get_span(1).unwrap();
    assert_eq!(span.resource, "res");
    assert_eq!(span.span_type, "t");
}

#[test]
fn v04_round_trip_with_reference_decoder() {
    let mut p = Processor::new();
    p.process(&single_span_payload()).unwrap();
    let finished = p.flush();
    let exporter = agent_v04::AgentExporter::new();
    let bytes = exporter.export(&finished).unwrap().unwrap();
    let mut rd: &[u8] = &bytes;
    assert_eq!(rmp::decode::read_array_len(&mut rd).unwrap(), 1);
    assert_eq!(rmp::decode::read_array_len(&mut rd).unwrap(), 1);
    assert_eq!(rmp::decode::read_map_len(&mut rd).unwrap(), 12);
    assert_eq!(rstr(&mut rd), "type");
    assert_eq!(rstr(&mut rd), "t");
    assert_eq!(rstr(&mut rd), "trace_id");
    assert_eq!(rint(&mut rd), 7);
    assert_eq!(rstr(&mut rd), "span_id");
    assert_eq!(rint(&mut rd), 1);
    assert_eq!(rstr(&mut rd), "parent_id");
    assert_eq!(rint(&mut rd), 0);
    assert_eq!(rstr(&mut rd), "name");
    assert_eq!(rstr(&mut rd), "op");
    assert_eq!(rstr(&mut rd), "resource");
    assert_eq!(rstr(&mut rd), "res");
    assert_eq!(rstr(&mut rd), "service");
    assert_eq!(rstr(&mut rd), "svc");
    assert_eq!(rstr(&mut rd), "error");
    assert_eq!(rint(&mut rd), 0);
    assert_eq!(rstr(&mut rd), "start");
    assert_eq!(rint(&mut rd), 1000);
    assert_eq!(rstr(&mut rd), "duration");
    // The wire duration carries the plus-one rule.
    assert_eq!(rint(&mut rd), 1501);
    assert_eq!(rstr(&mut rd), "meta");
    assert_eq!(rmp::decode::read_map_len(&mut rd).unwrap(), 1);
    assert_eq!(rstr(&mut rd), "k");
    assert_eq!(rstr(&mut rd), "v");
    assert_eq!(rstr(&mut rd), "metrics");
    assert_eq!(rmp::decode::read_map_len(&mut rd).unwrap(), 0);
    assert!(rd.is_empty());
}

#[test]
fn v04_span_map_has_eleven_keys_without_type() {
    let mut wr = Vec::new();
    // The span type index points at the empty string: "unset".
    payload_header(&mut wr, &["svc", "op", "res", ""]);
    write_array_len(&mut wr, 2);
    write_array_len(&mut wr, 11);
    write_uint(&mut wr, 4);
    write_uint(&mut wr, 100);
    write_uint(&mut wr, 7);
    write_uint(&mut wr, 1);
    write_uint(&mut wr, 0);
    write_uint(&mut wr, 0);
    write_uint(&mut wr, 1);
    write_uint(&mut wr, 2);
    write_map_len(&mut wr, 0);
    write_map_len(&mut wr, 0);
    write_uint(&mut wr, 3);
    write_array_len(&mut wr, 6);
    write_uint(&mut wr, 5);
    write_uint(&mut wr, 300);
    write_uint(&mut wr, 7);
    write_uint(&mut wr, 1);
    write_map_len(&mut wr, 0);
    write_map_len(&mut wr, 0);
    let mut p = Processor::new();
    p.process(&wr).unwrap();
    let finished = p.flush();
    let exporter = agent_v04::AgentExporter::new();
    let bytes = exporter.export(&finished).unwrap().unwrap();
    let mut rd: &[u8] = &bytes;
    assert_eq!(rmp::decode::read_array_len(&mut rd).unwrap(), 1);
    assert_eq!(rmp::decode::read_array_len(&mut rd).unwrap(), 1);
    assert_eq!(rmp::decode::read_map_len(&mut rd).unwrap(), 11);
    assert_eq!(rstr(&mut rd), "trace_id");
}

#[test]
fn v05_dedup_and_rematerialization() {
    // Two spans share service "svc" and meta {"k":"v"}.
    let mut wr = Vec::new();
    payload_header(&mut wr, &["svc", "op", "res", "k", "v", "t"]);
    write_array_len(&mut wr, 4);
    for span_id in [1u64, 2] {
        write_array_len(&mut wr, 11);
        write_uint(&mut wr, 4);
        write_uint(&mut wr, 100);
        write_uint(&mut wr, 7);
        write_uint(&mut wr, span_id);
        write_uint(&mut wr, 0);
        write_uint(&mut wr, 0);
        write_uint(&mut wr, 1);
        write_uint(&mut wr, 2);
        write_map_len(&mut wr, 1);
        write_uint(&mut wr, 3);
        write_uint(&mut wr, 4);
        write_map_len(&mut wr, 0);
        write_uint(&mut wr, 5);
    }
    for span_id in [1u64, 2] {
        write_array_len(&mut wr, 6);
        write_uint(&mut wr, 5);
        write_uint(&mut wr, 400);
        write_uint(&mut wr, 7);
        write_uint(&mut wr, span_id);
        write_map_len(&mut wr, 0);
        write_map_len(&mut wr, 0);
    }
    let mut p = Processor::new();
    p.process(&wr).unwrap();
    let finished = p.flush();
    let exporter = agent_v05::AgentExporter::new();
    let bytes = exporter.export(&finished).unwrap().unwrap();
    let mut rd: &[u8] = &bytes;
    assert_eq!(rmp::decode::read_array_len(&mut rd).unwrap(), 2);
    let table_len = rmp::decode::read_array_len(&mut rd).unwrap();
    let mut table = Vec::new();
    for _ in 0..table_len {
        table.push(rstr(&mut rd));
    }
    // Index zero is the empty string and no content appears twice.
    assert_eq!(table[0], "");
    for i in 0..table.len() {
        for j in 0..i {
            assert_ne!(table[i], table[j]);
        }
    }
    assert_eq!(table.iter().filter(|s| *s == "svc").count(), 1);
    assert_eq!(table.iter().filter(|s| *s == "k").count(), 1);
    assert_eq!(table.iter().filter(|s| *s == "v").count(), 1);
    assert_eq!(rmp::decode::read_array_len(&mut rd).unwrap(), 1);
    assert_eq!(rmp::decode::read_array_len(&mut rd).unwrap(), 2);
    let mut seen = Vec::new();
    for span_id in [1u64, 2] {
        assert_eq!(rmp::decode::read_array_len(&mut rd).unwrap(), 12);
        let service_idx = rint(&mut rd) as usize;
        let name_idx = rint(&mut rd) as usize;
        let resource_idx = rint(&mut rd) as usize;
        // Re-materializing through the table yields the logical span.
        assert_eq!(table[service_idx], "svc");
        assert_eq!(table[name_idx], "op");
        assert_eq!(table[resource_idx], "res");
        assert_eq!(rint(&mut rd), 7);
        assert_eq!(rint(&mut rd), span_id);
        assert_eq!(rint(&mut rd), 0);
        assert_eq!(rint(&mut rd), 100);
        assert_eq!(rint(&mut rd), 301);
        assert_eq!(rint(&mut rd), 0);
        assert_eq!(rmp::decode::read_map_len(&mut rd).unwrap(), 1);
        let k_idx = rint(&mut rd) as usize;
        let v_idx = rint(&mut rd) as usize;
        assert_eq!(table[k_idx], "k");
        assert_eq!(table[v_idx], "v");
        assert_eq!(rmp::decode::read_map_len(&mut rd).unwrap(), 0);
        let type_idx = rint(&mut rd) as usize;
        assert_eq!(table[type_idx], "t");
        seen.push((service_idx, k_idx, v_idx, type_idx));
    }
    // Both spans reference the same indices.
    assert_eq!(seen[0], seen[1]);
    assert!(rd.is_empty());
}

#[test]
fn empty_flush_exports_nothing() {
    let mut p = Processor::new();
    let finished = p.flush();
    let v04 = agent_v04::AgentExporter::new();
    assert_eq!(v04.export(&finished).unwrap(), None);
    let v05 = agent_v05::AgentExporter::new();
    assert_eq!(v05.export(&finished).unwrap(), None);
}

#[test]
fn malformed_payload_is_rejected() {
    let mut p = Processor::new();
    // Truncated: an outer header announcing content that never comes.
    let mut wr = Vec::new();
    write_array_len(&mut wr, 2);
    assert_eq!(p.process(&wr), Err(Error::MalformedInput));
    // A string index out of range.
    let mut wr = Vec::new();
    payload_header(&mut wr, &["svc"]);
    write_array_len(&mut wr, 1);
    write_array_len(&mut wr, 11);
    write_uint(&mut wr, 4);
    write_uint(&mut wr, 100);
    write_uint(&mut wr, 7);
    write_uint(&mut wr, 1);
    write_uint(&mut wr, 0);
    write_uint(&mut wr, 55);
    assert_eq!(p.process(&wr), Err(Error::MalformedInput));
    assert_eq!(p.traces.len(), 0);
    // Invalid UTF-8 in the string batch.
    let mut wr = Vec::new();
    write_array_len(&mut wr, 2);
    write_array_len(&mut wr, 1);
    wr.push(0xa2);
    wr.push(0xff);
    wr.push(0xfe);
    write_array_len(&mut wr, 0);
    assert_eq!(p.process(&wr), Err(Error::MalformedInput));
}

#[test]
fn duplicate_meta_keys_last_writer_wins() {
    let mut wr = Vec::new();
    payload_header(&mut wr, &["svc", "op", "res", "k", "v1", "v2", "t"]);
    write_array_len(&mut wr, 1);
    write_array_len(&mut wr, 11);
    write_uint(&mut wr, 4);
    write_uint(&mut wr, 100);
    write_uint(&mut wr, 7);
    write_uint(&mut wr, 1);
    write_uint(&mut wr, 0);
    write_uint(&mut wr, 0);
    write_uint(&mut wr, 1);
    write_uint(&mut wr, 2);
    // The same key twice: the later value stays.
    write_map_len(&mut wr, 2);
    write_uint(&mut wr, 3);
    write_uint(&mut wr, 4);
    write_uint(&mut wr, 3);
    write_uint(&mut wr, 5);
    write_map_len(&mut wr, 0);
    write_uint(&mut wr, 6);
    let mut p = Processor::new();
    p.process(&wr).unwrap();
    let trace_holder = p.traces.get(7).unwrap();
    let span = trace_holder.get_span(1).unwrap();
    assert_eq!(span.meta.len(), 1);
    assert_eq!(span.meta.get(&"k".to_string()).unwrap().as_str(), "v2");
}

#[test]
fn duplicate_start_overwrites_and_double_counts() {
    let mut wr = Vec::new();
    payload_header(&mut wr, &["svc", "op", "res", "res2", "t"]);
    write_array_len(&mut wr, 2);
    for resource_idx in [2u64, 3] {
        write_array_len(&mut wr, 11);
        write_uint(&mut wr, 4);
        write_uint(&mut wr, 100);
        write_uint(&mut wr, 7);
        write_uint(&mut wr, 1);
        write_uint(&mut wr, 0);
        write_uint(&mut wr, 0);
        write_uint(&mut wr, 1);
        write_uint(&mut wr, resource_idx);
        write_map_len(&mut wr, 0);
        write_map_len(&mut wr, 0);
        write_uint(&mut wr, 4);
    }
    let mut p = Processor::new();
    p.process(&wr).unwrap();
    let trace_holder = p.traces.get(7).unwrap();
    // The counter counts both starts while the span is overwritten, so the
    // trace can never complete.
    assert_eq!(trace_holder.started, 2);
    assert_eq!(trace_holder.spans.len(), 1);
    assert_eq!(trace_holder.get_span(1).unwrap().resource, "res2");
}

#[test]
fn finish_before_start_clamps_duration_to_zero() {
    let mut wr = Vec::new();
    payload_header(&mut wr, &["svc", "op", "res", "t"]);
    write_array_len(&mut wr, 2);
    write_array_len(&mut wr, 11);
    write_uint(&mut wr, 4);
    write_uint(&mut wr, 1000);
    write_uint(&mut wr, 7);
    write_uint(&mut wr, 1);
    write_uint(&mut wr, 0);
    write_uint(&mut wr, 0);
    write_uint(&mut wr, 1);
    write_uint(&mut wr, 2);
    write_map_len(&mut wr, 0);
    write_map_len(&mut wr, 0);
    write_uint(&mut wr, 3);
    // A finish time before the start clamps the duration at zero.
    write_array_len(&mut wr, 6);
    write_uint(&mut wr, 5);
    write_uint(&mut wr, 900);
    write_uint(&mut wr, 7);
    write_uint(&mut wr, 1);
    write_map_len(&mut wr, 0);
    write_map_len(&mut wr, 0);
    let mut p = Processor::new();
    p.process(&wr).unwrap();
    let finished = p.flush();
    assert_eq!(finished.get(7).unwrap().get_span(1).unwrap().duration, 0);
}
