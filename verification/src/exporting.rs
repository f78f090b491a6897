//! Shared ground for the two downstream agent encoders: the duration rule
//! and the wire-format size limits.

use vstd::prelude::*;
use vstd::utf8::encode_utf8;

use crate::tracing::{SpanV, TraceV};

pub mod agent_v04;
pub mod agent_v05;

verus! {

/// The wire duration: one more than the in-memory duration, pinned at the
/// top of the 64-bit range, so the downstream agent always sees a positive
/// duration.
pub open spec fn wire_duration(d: u64) -> u64 {
    if d == u64::MAX {
        d
    } else {
        (d + 1) as u64
    }
}

/// The string's UTF-8 bytes fit the 32-bit length prefix of the str family.
pub open spec fn str_fits(s: Seq<char>) -> bool {
    encode_utf8(s).len() <= u32::MAX
}

/// Every string of the span fits the wire, and its tag maps fit the 32-bit
/// map headers.
pub open spec fn span_encodable(s: SpanV) -> bool {
    &&& str_fits(s.span_type)
    &&& str_fits(s.name)
    &&& str_fits(s.resource)
    &&& str_fits(s.service)
    &&& s.meta.len() <= u32::MAX
    &&& s.metrics.len() <= u32::MAX
    &&& forall|i: int|
        0 <= i < s.meta.len() ==> str_fits((#[trigger] s.meta[i]).0) && str_fits(s.meta[i].1)
    &&& forall|i: int| 0 <= i < s.metrics.len() ==> str_fits((#[trigger] s.metrics[i]).0)
}

/// Every span of the trace is encodable and their number fits the 32-bit
/// array header.
pub open spec fn trace_encodable(t: TraceV) -> bool {
    &&& t.spans.len() <= u32::MAX
    &&& forall|i: int| 0 <= i < t.spans.len() ==> span_encodable(#[trigger] t.spans[i])
}

/// Every trace of the batch is encodable and their number fits the 32-bit
/// array header.
pub open spec fn traces_encodable(m: Seq<(u64, TraceV)>) -> bool {
    &&& m.len() <= u32::MAX
    &&& forall|i: int| 0 <= i < m.len() ==> trace_encodable((#[trigger] m[i]).1)
}

/// Reassociate one appended piece into the running encoding: a writer that
/// appended `e` to a buffer holding `base + acc` leaves `base + (acc + e)`.
pub proof fn lemma_concat_step<A>(w0: Seq<A>, base: Seq<A>, acc: Seq<A>, e: Seq<A>)
    requires
        w0 == base + acc,
    ensures
        w0 + e == base + (acc + e),
{
    assert(w0 + e =~= base + (acc + e));
}

/// Whether the string's UTF-8 bytes fit the 32-bit length prefix.
pub fn check_str_fits(s: &String) -> (r: bool)
    ensures
        r == str_fits(s@),
{
    let b = s.as_str().as_bytes();
    (b.len() as u64) <= 0xffff_ffffu64
}

/// Whether every string and map of the span fits the wire limits.
pub fn check_span_encodable(s: &crate::tracing::Span) -> (r: bool)
    ensures
        r == span_encodable(s@),
{
    if !check_str_fits(&s.span_type) {
        return false;
    }
    if !check_str_fits(&s.name) {
        return false;
    }
    if !check_str_fits(&s.resource) {
        return false;
    }
    if !check_str_fits(&s.service) {
        return false;
    }
    if (s.meta.pairs.len() as u64) > 0xffff_ffffu64 {
        return false;
    }
    if (s.metrics.pairs.len() as u64) > 0xffff_ffffu64 {
        return false;
    }
    let mut i: usize = 0;
    while i < s.meta.pairs.len()
        invariant
            i <= s.meta@.len(),
            forall|j: int|
                0 <= j < i ==> str_fits((#[trigger] s.meta@[j]).0) && str_fits(s.meta@[j].1),
        decreases s.meta@.len() - i,
    {
        if !check_str_fits(&s.meta.pairs[i].0) {
            proof {
                assert(s.meta@[i as int].0 == s.meta.pairs@[i as int].0@);
            }
            return false;
        }
        if !check_str_fits(&s.meta.pairs[i].1) {
            proof {
                assert(s.meta@[i as int].1 == s.meta.pairs@[i as int].1@);
            }
            return false;
        }
        proof {
            assert(s.meta@[i as int].0 == s.meta.pairs@[i as int].0@);
            assert(s.meta@[i as int].1 == s.meta.pairs@[i as int].1@);
        }
        i = i + 1;
    }
    let mut j: usize = 0;
    while j < s.metrics.pairs.len()
        invariant
            j <= s.metrics@.len(),
            forall|k: int| 0 <= k < j ==> str_fits((#[trigger] s.metrics@[k]).0),
        decreases s.metrics@.len() - j,
    {
        if !check_str_fits(&s.metrics.pairs[j].0) {
            proof {
                assert(s.metrics@[j as int].0 == s.metrics.pairs@[j as int].0@);
            }
            return false;
        }
        proof {
            assert(s.metrics@[j as int].0 == s.metrics.pairs@[j as int].0@);
        }
        j = j + 1;
    }
    true
}

/// Whether every span of the trace is encodable.
pub fn check_trace_encodable(t: &crate::tracing::Trace) -> (r: bool)
    ensures
        r == trace_encodable(t@),
{
    if (t.spans.len() as u64) > 0xffff_ffffu64 {
        return false;
    }
    let mut i: usize = 0;
    while i < t.spans.len()
        invariant
            i <= t@.spans.len(),
            forall|j: int| 0 <= j < i ==> span_encodable(#[trigger] t@.spans[j]),
        decreases t@.spans.len() - i,
    {
        if !check_span_encodable(&t.spans[i]) {
            proof {
                assert(t@.spans[i as int] == t.spans@[i as int]@);
            }
            return false;
        }
        proof {
            assert(t@.spans[i as int] == t.spans@[i as int]@);
        }
        i = i + 1;
    }
    true
}

/// Whether every trace of the batch is encodable.
pub fn check_traces_encodable(m: &crate::tracing::Traces) -> (r: bool)
    ensures
        r == traces_encodable(m@),
{
    if (m.pairs.len() as u64) > 0xffff_ffffu64 {
        return false;
    }
    let mut i: usize = 0;
    while i < m.pairs.len()
        invariant
            i <= m@.len(),
            forall|j: int| 0 <= j < i ==> trace_encodable((#[trigger] m@[j]).1),
        decreases m@.len() - i,
    {
        if !check_trace_encodable(&m.pairs[i].1) {
            proof {
                assert(m@[i as int].1 == m.pairs@[i as int].1@);
            }
            return false;
        }
        proof {
            assert(m@[i as int].1 == m.pairs@[i as int].1@);
        }
        i = i + 1;
    }
    true
}

} // verus!
