//! The in-memory trace model: spans, traces, and the per-session aggregate.
//!
//! Tag maps and the aggregate are association lists with unique keys, so the
//! whole model is a plain value with a mathematical view: a span views as a
//! record of sequences and integers, the aggregate as a sequence of
//! `(trace_id, trace)` pairs. Metric values are carried as raw IEEE 754 bit
//! patterns, which is exactly what the wire format stores.

use vstd::prelude::*;

verus! {

// ---------------------------------------------------------------------------
// String-keyed association sequences (the model of the tag maps)
// ---------------------------------------------------------------------------
/// All keys of the pair sequence are distinct.
pub open spec fn str_keys_unique<V>(s: Seq<(Seq<char>, V)>) -> bool {
    forall|i: int, j: int| 0 <= i < j < s.len() ==> s[i].0 != s[j].0
}

/// Some pair carries key `k`.
pub open spec fn str_has_key<V>(s: Seq<(Seq<char>, V)>, k: Seq<char>) -> bool {
    exists|i: int| 0 <= i < s.len() && s[i].0 == k
}

/// The position of key `k`; meaningful when the key is present and unique.
pub open spec fn str_index_of<V>(s: Seq<(Seq<char>, V)>, k: Seq<char>) -> int {
    choose|i: int| 0 <= i < s.len() && s[i].0 == k
}

/// The value bound to key `k`, if any.
pub open spec fn str_get<V>(s: Seq<(Seq<char>, V)>, k: Seq<char>) -> Option<V> {
    if str_has_key(s, k) {
        Some(s[str_index_of(s, k)].1)
    } else {
        None
    }
}

/// Bind `k` to `v`: replace in place when the key is present (keeping its
/// position), append otherwise.
pub open spec fn str_insert<V>(s: Seq<(Seq<char>, V)>, k: Seq<char>, v: V) -> Seq<(Seq<char>, V)> {
    if str_has_key(s, k) {
        s.update(str_index_of(s, k), (k, v))
    } else {
        s.push((k, v))
    }
}

/// Bind every pair of `t` in order, last writer winning.
pub open spec fn str_insert_all<V>(s: Seq<(Seq<char>, V)>, t: Seq<(Seq<char>, V)>) -> Seq<
    (Seq<char>, V),
>
    decreases t.len(),
{
    if t.len() == 0 {
        s
    } else {
        str_insert_all(str_insert(s, t[0].0, t[0].1), t.drop_first())
    }
}

/// Folding one more pair on the right is one more insert.
pub proof fn lemma_str_insert_all_snoc<V>(s: Seq<(Seq<char>, V)>, t: Seq<(Seq<char>, V)>, k: Seq<char>, v: V)
    ensures
        str_insert_all(s, t.push((k, v))) == str_insert(str_insert_all(s, t), k, v),
    decreases t.len(),
{
    let t2 = t.push((k, v));
    if t.len() == 0 {
        assert(t2[0] == (k, v));
        assert(str_insert_all(s, t2) == str_insert_all(str_insert(s, k, v), t2.drop_first()));
        assert(t2.drop_first().len() == 0);
    } else {
        assert(t2[0] == t[0]);
        assert(t2.drop_first() =~= t.drop_first().push((k, v)));
        lemma_str_insert_all_snoc(str_insert(s, t[0].0, t[0].1), t.drop_first(), k, v);
    }
}

/// A pair found at position `i` under unique keys is the binding of its key.
pub proof fn lemma_str_found<V>(s: Seq<(Seq<char>, V)>, k: Seq<char>, i: int)
    requires
        str_keys_unique(s),
        0 <= i < s.len(),
        s[i].0 == k,
    ensures
        str_has_key(s, k),
        str_index_of(s, k) == i,
{
    assert(str_has_key(s, k));
    let w = str_index_of(s, k);
    assert(0 <= w < s.len() && s[w].0 == k);
    if w < i {
        assert(s[w].0 != s[i].0);
    } else if i < w {
        assert(s[i].0 != s[w].0);
    }
}

// ---------------------------------------------------------------------------
// Tag maps
// ---------------------------------------------------------------------------
/// String-valued tags of a span.
#[derive(Debug)]
pub struct Meta {
    pub pairs: Vec<(String, String)>,
}

impl View for Meta {
    type V = Seq<(Seq<char>, Seq<char>)>;

    open spec fn view(&self) -> Seq<(Seq<char>, Seq<char>)> {
        Seq::new(self.pairs@.len(), |i: int| (self.pairs@[i].0@, self.pairs@[i].1@))
    }
}

impl Meta {
    /// Keys are distinct.
    pub open spec fn wf(&self) -> bool {
        str_keys_unique(self@)
    }

    pub fn new() -> (r: Meta)
        ensures
            r@ == Seq::<(Seq<char>, Seq<char>)>::empty(),
            r.wf(),
    {
        let r = Meta { pairs: Vec::new() };
        proof {
            assert(r@ =~= Seq::<(Seq<char>, Seq<char>)>::empty());
        }
        r
    }

    pub fn len(&self) -> (n: usize)
        ensures
            n == self@.len(),
    {
        self.pairs.len()
    }

    /// The value bound to `k`, if any.
    pub fn get(&self, k: &String) -> (r: Option<&String>)
        requires
            self.wf(),
        ensures
            match str_get(self@, k@) {
                Some(v) => r matches Some(s) && s@ == v,
                None => r is None,
            },
    {
        let mut i: usize = 0;
        while i < self.pairs.len()
            invariant
                i <= self.pairs@.len(),
                self.wf(),
                forall|j: int| 0 <= j < i ==> self@[j].0 != k@,
            decreases self.pairs@.len() - i,
        {
            if self.pairs[i].0 == *k {
                proof {
                    assert(self@[i as int].0 == k@);
                    lemma_str_found(self@, k@, i as int);
                }
                return Some(&self.pairs[i].1);
            }
            i = i + 1;
        }
        None
    }

    /// Bind `k` to `v`, last writer winning.
    pub fn insert(&mut self, k: String, v: String)
        requires
            old(self).wf(),
        ensures
            final(self)@ == str_insert(old(self)@, k@, v@),
            final(self).wf(),
    {
        let mut i: usize = 0;
        while i < self.pairs.len()
            invariant
                i <= self.pairs@.len(),
                self.wf(),
                *self == *old(self),
                forall|j: int| 0 <= j < i ==> self@[j].0 != k@,
            decreases self.pairs@.len() - i,
        {
            if self.pairs[i].0 == k {
                proof {
                    assert(self@[i as int].0 == k@);
                    lemma_str_found(self@, k@, i as int);
                }
                self.pairs[i].1 = v;
                proof {
                    assert(final(self)@ =~= str_insert(old(self)@, k@, v@));
                }
                return ;
            }
            i = i + 1;
        }
        self.pairs.push((k, v));
        proof {
            assert(final(self)@ =~= old(self)@.push((k@, v@)));
            assert(final(self)@ =~= str_insert(old(self)@, k@, v@));
        }
    }

    /// Merge every pair of `other` into `self`, last writer winning.
    pub fn extend(&mut self, other: &Meta)
        requires
            old(self).wf(),
        ensures
            final(self)@ == str_insert_all(old(self)@, other@),
            final(self).wf(),
    {
        let mut i: usize = 0;
        while i < other.pairs.len()
            invariant
                i <= other.pairs@.len(),
                self.wf(),
                self@ == str_insert_all(old(self)@, other@.take(i as int)),
            decreases other.pairs@.len() - i,
        {
            let k = other.pairs[i].0.clone();
            let v = other.pairs[i].1.clone();
            proof {
                assert(other@.take(i + 1) =~= other@.take(i as int).push((k@, v@)));
                lemma_str_insert_all_snoc(old(self)@, other@.take(i as int), k@, v@);
            }
            self.insert(k, v);
            i = i + 1;
        }
        proof {
            assert(other@.take(other.pairs@.len() as int) =~= other@);
        }
    }
}

/// Numeric tags of a span; each value is the raw bit pattern of a 64-bit
/// IEEE 754 float, exactly as it travels on the wire.
#[derive(Debug)]
pub struct Metrics {
    pub pairs: Vec<(String, u64)>,
}

impl View for Metrics {
    type V = Seq<(Seq<char>, u64)>;

    open spec fn view(&self) -> Seq<(Seq<char>, u64)> {
        Seq::new(self.pairs@.len(), |i: int| (self.pairs@[i].0@, self.pairs@[i].1))
    }
}

impl Metrics {
    /// Keys are distinct.
    pub open spec fn wf(&self) -> bool {
        str_keys_unique(self@)
    }

    pub fn new() -> (r: Metrics)
        ensures
            r@ == Seq::<(Seq<char>, u64)>::empty(),
            r.wf(),
    {
        let r = Metrics { pairs: Vec::new() };
        proof {
            assert(r@ =~= Seq::<(Seq<char>, u64)>::empty());
        }
        r
    }

    pub fn len(&self) -> (n: usize)
        ensures
            n == self@.len(),
    {
        self.pairs.len()
    }

    /// The bit pattern bound to `k`, if any.
    pub fn get(&self, k: &String) -> (r: Option<u64>)
        requires
            self.wf(),
        ensures
            r == str_get(self@, k@),
    {
        let mut i: usize = 0;
        while i < self.pairs.len()
            invariant
                i <= self.pairs@.len(),
                self.wf(),
                forall|j: int| 0 <= j < i ==> self@[j].0 != k@,
            decreases self.pairs@.len() - i,
        {
            if self.pairs[i].0 == *k {
                proof {
                    assert(self@[i as int].0 == k@);
                    lemma_str_found(self@, k@, i as int);
                }
                return Some(self.pairs[i].1);
            }
            i = i + 1;
        }
        None
    }

    /// Bind `k` to `v`, last writer winning.
    pub fn insert(&mut self, k: String, v: u64)
        requires
            old(self).wf(),
        ensures
            final(self)@ == str_insert(old(self)@, k@, v),
            final(self).wf(),
    {
        let mut i: usize = 0;
        while i < self.pairs.len()
            invariant
                i <= self.pairs@.len(),
                self.wf(),
                *self == *old(self),
                forall|j: int| 0 <= j < i ==> self@[j].0 != k@,
            decreases self.pairs@.len() - i,
        {
            if self.pairs[i].0 == k {
                proof {
                    assert(self@[i as int].0 == k@);
                    lemma_str_found(self@, k@, i as int);
                }
                self.pairs[i].1 = v;
                proof {
                    assert(final(self)@ =~= str_insert(old(self)@, k@, v));
                }
                return ;
            }
            i = i + 1;
        }
        self.pairs.push((k, v));
        proof {
            assert(final(self)@ =~= old(self)@.push((k@, v)));
            assert(final(self)@ =~= str_insert(old(self)@, k@, v));
        }
    }

    /// Merge every pair of `other` into `self`, last writer winning.
    pub fn extend(&mut self, other: &Metrics)
        requires
            old(self).wf(),
        ensures
            final(self)@ == str_insert_all(old(self)@, other@),
            final(self).wf(),
    {
        let mut i: usize = 0;
        while i < other.pairs.len()
            invariant
                i <= other.pairs@.len(),
                self.wf(),
                self@ == str_insert_all(old(self)@, other@.take(i as int)),
            decreases other.pairs@.len() - i,
        {
            let k = other.pairs[i].0.clone();
            let v = other.pairs[i].1;
            proof {
                assert(other@.take(i + 1) =~= other@.take(i as int).push((k@, v)));
                lemma_str_insert_all_snoc(old(self)@, other@.take(i as int), k@, v);
            }
            self.insert(k, v);
            i = i + 1;
        }
        proof {
            assert(other@.take(other.pairs@.len() as int) =~= other@);
        }
    }
}

// ---------------------------------------------------------------------------
// Spans
// ---------------------------------------------------------------------------
/// The mathematical value of a span.
#[verifier::ext_equal]
pub ghost struct SpanV {
    pub span_type: Seq<char>,
    pub trace_id: u64,
    pub span_id: u64,
    pub parent_id: u64,
    pub name: Seq<char>,
    pub resource: Seq<char>,
    pub service: Seq<char>,
    pub error: u64,
    pub start: u64,
    pub duration: u64,
    pub meta: Seq<(Seq<char>, Seq<char>)>,
    pub metrics: Seq<(Seq<char>, u64)>,
}

/// One unit of work. The empty `span_type` denotes "unset".
#[derive(Debug)]
pub struct Span {
    pub span_type: String,
    pub trace_id: u64,
    pub span_id: u64,
    pub parent_id: u64,
    pub name: String,
    pub resource: String,
    pub service: String,
    pub error: u64,
    pub start: u64,
    pub duration: u64,
    pub meta: Meta,
    pub metrics: Metrics,
}

impl View for Span {
    type V = SpanV;

    open spec fn view(&self) -> SpanV {
        SpanV {
            span_type: self.span_type@,
            trace_id: self.trace_id,
            span_id: self.span_id,
            parent_id: self.parent_id,
            name: self.name@,
            resource: self.resource@,
            service: self.service@,
            error: self.error,
            start: self.start,
            duration: self.duration,
            meta: self.meta@,
            metrics: self.metrics@,
        }
    }
}

/// Both tag maps of the span have distinct keys.
pub open spec fn span_wf(s: SpanV) -> bool {
    str_keys_unique(s.meta) && str_keys_unique(s.metrics)
}

/// All spans of the sequence have distinct identifiers.
pub open spec fn span_ids_unique(s: Seq<SpanV>) -> bool {
    forall|i: int, j: int| 0 <= i < j < s.len() ==> s[i].span_id != s[j].span_id
}

/// Some span of the sequence has identifier `sid`.
pub open spec fn has_span(s: Seq<SpanV>, sid: u64) -> bool {
    exists|i: int| 0 <= i < s.len() && s[i].span_id == sid
}

/// The position of span `sid`; meaningful when present and unique.
pub open spec fn span_index_of(s: Seq<SpanV>, sid: u64) -> int {
    choose|i: int| 0 <= i < s.len() && s[i].span_id == sid
}

/// A span found at position `i` under unique identifiers is the one indexed
/// by its identifier.
pub proof fn lemma_span_found(s: Seq<SpanV>, sid: u64, i: int)
    requires
        span_ids_unique(s),
        0 <= i < s.len(),
        s[i].span_id == sid,
    ensures
        has_span(s, sid),
        span_index_of(s, sid) == i,
{
    assert(has_span(s, sid));
    let w = span_index_of(s, sid);
    assert(0 <= w < s.len() && s[w].span_id == sid);
    if w < i {
        assert(s[w].span_id != s[i].span_id);
    } else if i < w {
        assert(s[i].span_id != s[w].span_id);
    }
}

/// Keep `sp`, replacing the span with the same identifier if there is one.
pub open spec fn spec_insert_span(s: Seq<SpanV>, sp: SpanV) -> Seq<SpanV> {
    if has_span(s, sp.span_id) {
        s.update(span_index_of(s, sp.span_id), sp)
    } else {
        s.push(sp)
    }
}

// ---------------------------------------------------------------------------
// Traces
// ---------------------------------------------------------------------------
/// The mathematical value of a trace.
#[verifier::ext_equal]
pub ghost struct TraceV {
    pub started: u64,
    pub finished: u64,
    pub spans: Seq<SpanV>,
}

/// The spans sharing one `trace_id`, with the counts of observed start and
/// finish events.
#[derive(Debug)]
pub struct Trace {
    pub started: u64,
    pub finished: u64,
    pub spans: Vec<Span>,
}

impl View for Trace {
    type V = TraceV;

    open spec fn view(&self) -> TraceV {
        TraceV {
            started: self.started,
            finished: self.finished,
            spans: Seq::new(self.spans@.len(), |i: int| self.spans@[i]@),
        }
    }
}

/// Spans are distinct, well formed, and never outnumber the observed starts.
pub open spec fn trace_wf(t: TraceV) -> bool {
    &&& span_ids_unique(t.spans)
    &&& forall|i: int| 0 <= i < t.spans.len() ==> span_wf(#[trigger] t.spans[i])
    &&& t.spans.len() <= t.started
}

impl Trace {
    /// The position of span `sid` in this trace, if present.
    pub fn find_span(&self, sid: u64) -> (r: Option<usize>)
        requires
            span_ids_unique(self@.spans),
        ensures
            match r {
                Some(i) => has_span(self@.spans, sid) && i == span_index_of(self@.spans, sid)
                    && 0 <= i < self@.spans.len(),
                None => !has_span(self@.spans, sid),
            },
    {
        let mut i: usize = 0;
        while i < self.spans.len()
            invariant
                i <= self.spans@.len(),
                span_ids_unique(self@.spans),
                forall|j: int| 0 <= j < i ==> self@.spans[j].span_id != sid,
            decreases self.spans@.len() - i,
        {
            if self.spans[i].span_id == sid {
                proof {
                    assert(self@.spans[i as int].span_id == sid);
                    lemma_span_found(self@.spans, sid, i as int);
                }
                return Some(i);
            }
            i = i + 1;
        }
        None
    }

    /// Borrow the span with identifier `sid`, if present.
    pub fn get_span(&self, sid: u64) -> (r: Option<&Span>)
        requires
            span_ids_unique(self@.spans),
        ensures
            match r {
                Some(sp) => has_span(self@.spans, sid) && sp@ == self@.spans[span_index_of(
                    self@.spans,
                    sid,
                )],
                None => !has_span(self@.spans, sid),
            },
    {
        match self.find_span(sid) {
            Some(i) => Some(&self.spans[i]),
            None => None,
        }
    }
}

/// Keys of the aggregate are distinct.
pub open spec fn trace_keys_unique(m: Seq<(u64, TraceV)>) -> bool {
    forall|i: int, j: int| 0 <= i < j < m.len() ==> m[i].0 != m[j].0
}

/// Some entry carries key `tid`.
pub open spec fn has_trace(m: Seq<(u64, TraceV)>, tid: u64) -> bool {
    exists|i: int| 0 <= i < m.len() && m[i].0 == tid
}

/// The position of key `tid`; meaningful when present and unique.
pub open spec fn trace_index_of(m: Seq<(u64, TraceV)>, tid: u64) -> int {
    choose|i: int| 0 <= i < m.len() && m[i].0 == tid
}

/// An entry found at position `i` under unique keys is the binding of its
/// trace identifier.
pub proof fn lemma_trace_found(m: Seq<(u64, TraceV)>, tid: u64, i: int)
    requires
        trace_keys_unique(m),
        0 <= i < m.len(),
        m[i].0 == tid,
    ensures
        has_trace(m, tid),
        trace_index_of(m, tid) == i,
{
    assert(has_trace(m, tid));
    let w = trace_index_of(m, tid);
    assert(0 <= w < m.len() && m[w].0 == tid);
    if w < i {
        assert(m[w].0 != m[i].0);
    } else if i < w {
        assert(m[i].0 != m[w].0);
    }
}

/// Every entry is well formed, observed at least one start, and holds only
/// spans carrying its own trace identifier.
pub open spec fn traces_wf(m: Seq<(u64, TraceV)>) -> bool {
    &&& trace_keys_unique(m)
    &&& forall|i: int|
        0 <= i < m.len() ==> {
            &&& trace_wf(#[trigger] m[i].1)
            &&& m[i].1.started >= 1
            &&& forall|j: int| 0 <= j < m[i].1.spans.len() ==> m[i].1.spans[j].trace_id == m[i].0
        }
}

/// Increment, staying at the top of the range instead of wrapping.
pub open spec fn sat_inc(x: u64) -> u64 {
    if x == u64::MAX {
        x
    } else {
        (x + 1) as u64
    }
}

/// The difference `a - b`, clamped to zero when `b` exceeds `a`.
pub open spec fn clamp_sub(a: u64, b: u64) -> u64 {
    if a >= b {
        (a - b) as u64
    } else {
        0
    }
}

/// Record a start event: create or extend the trace of `sp.trace_id`, count
/// the start, and keep the span (replacing one with the same identifier).
/// A trace whose start counter has reached the top of the 64-bit range
/// accepts no further spans, so the counter never wraps.
pub open spec fn spec_start_span(m: Seq<(u64, TraceV)>, sp: SpanV) -> Seq<(u64, TraceV)> {
    if has_trace(m, sp.trace_id) {
        let ti = trace_index_of(m, sp.trace_id);
        let t = m[ti].1;
        if t.started == u64::MAX {
            m
        } else {
            m.update(
                ti,
                (
                    sp.trace_id,
                    TraceV {
                        started: (t.started + 1) as u64,
                        finished: t.finished,
                        spans: spec_insert_span(t.spans, sp),
                    },
                ),
            )
        }
    } else {
        m.push((sp.trace_id, TraceV { started: 1, finished: 0, spans: seq![sp] }))
    }
}

/// Record a finish event: when the span exists, count the finish, set its
/// duration to `finish - start` (clamped at zero), and merge the tags; when
/// it does not, leave the aggregate unchanged.
pub open spec fn spec_finish_span(
    m: Seq<(u64, TraceV)>,
    tid: u64,
    sid: u64,
    finish: u64,
    meta: Seq<(Seq<char>, Seq<char>)>,
    metrics: Seq<(Seq<char>, u64)>,
) -> Seq<(u64, TraceV)> {
    if !has_trace(m, tid) {
        m
    } else {
        let ti = trace_index_of(m, tid);
        let t = m[ti].1;
        if !has_span(t.spans, sid) {
            m
        } else {
            let si = span_index_of(t.spans, sid);
            let s = t.spans[si];
            let s2 = SpanV {
                duration: clamp_sub(finish, s.start),
                meta: str_insert_all(s.meta, meta),
                metrics: str_insert_all(s.metrics, metrics),
                ..s
            };
            m.update(
                ti,
                (tid, TraceV { started: t.started, finished: sat_inc(t.finished), spans: t.spans.update(si, s2) }),
            )
        }
    }
}

/// Merge tags into the named span; leave the aggregate unchanged when the
/// trace or span is unknown.
pub open spec fn spec_add_tags(
    m: Seq<(u64, TraceV)>,
    tid: u64,
    sid: u64,
    meta: Seq<(Seq<char>, Seq<char>)>,
    metrics: Seq<(Seq<char>, u64)>,
) -> Seq<(u64, TraceV)> {
    if !has_trace(m, tid) {
        m
    } else {
        let ti = trace_index_of(m, tid);
        let t = m[ti].1;
        if !has_span(t.spans, sid) {
            m
        } else {
            let si = span_index_of(t.spans, sid);
            let s = t.spans[si];
            let s2 = SpanV {
                meta: str_insert_all(s.meta, meta),
                metrics: str_insert_all(s.metrics, metrics),
                ..s
            };
            m.update(ti, (tid, TraceV { spans: t.spans.update(si, s2), ..t }))
        }
    }
}

/// Flag the named span as errored and merge the error tags; leave the
/// aggregate unchanged when the trace or span is unknown.
pub open spec fn spec_add_error(
    m: Seq<(u64, TraceV)>,
    tid: u64,
    sid: u64,
    meta: Seq<(Seq<char>, Seq<char>)>,
) -> Seq<(u64, TraceV)> {
    if !has_trace(m, tid) {
        m
    } else {
        let ti = trace_index_of(m, tid);
        let t = m[ti].1;
        if !has_span(t.spans, sid) {
            m
        } else {
            let si = span_index_of(t.spans, sid);
            let s = t.spans[si];
            let s2 = SpanV { error: 1, meta: str_insert_all(s.meta, meta), ..s };
            m.update(ti, (tid, TraceV { spans: t.spans.update(si, s2), ..t }))
        }
    }
}

/// A trace is complete when every started span has finished.
pub open spec fn trace_complete(t: TraceV) -> bool {
    t.started == t.finished
}

/// The complete entries, in order.
pub open spec fn spec_finished_part(m: Seq<(u64, TraceV)>) -> Seq<(u64, TraceV)>
    decreases m.len(),
{
    if m.len() == 0 {
        m
    } else {
        let rest = spec_finished_part(m.drop_last());
        if trace_complete(m.last().1) {
            rest.push(m.last())
        } else {
            rest
        }
    }
}

/// The incomplete entries, in order.
pub open spec fn spec_unfinished_part(m: Seq<(u64, TraceV)>) -> Seq<(u64, TraceV)>
    decreases m.len(),
{
    if m.len() == 0 {
        m
    } else {
        let rest = spec_unfinished_part(m.drop_last());
        if !trace_complete(m.last().1) {
            rest.push(m.last())
        } else {
            rest
        }
    }
}

/// `x` occurs in `m`.
pub open spec fn entry_in(x: (u64, TraceV), m: Seq<(u64, TraceV)>) -> bool {
    exists|j: int| 0 <= j < m.len() && m[j] == x
}

/// Every entry of `part` is an entry of `m`.
pub open spec fn entries_from(part: Seq<(u64, TraceV)>, m: Seq<(u64, TraceV)>) -> bool {
    forall|a: int| 0 <= a < part.len() ==> entry_in(#[trigger] part[a], m)
}

/// A prefix of a well-formed aggregate is well formed.
pub proof fn lemma_traces_wf_drop_last(m: Seq<(u64, TraceV)>)
    requires
        traces_wf(m),
        m.len() > 0,
    ensures
        traces_wf(m.drop_last()),
{
    let pre = m.drop_last();
    assert forall|i: int| 0 <= i < pre.len() implies {
        &&& trace_wf(#[trigger] pre[i].1)
        &&& pre[i].1.started >= 1
        &&& forall|j: int| 0 <= j < pre[i].1.spans.len() ==> pre[i].1.spans[j].trace_id == pre[i].0
    } by {
        assert(pre[i] == m[i]);
    }
}

/// Entries drawn from a prefix are entries of the whole.
proof fn lemma_entries_from_extend(part: Seq<(u64, TraceV)>, m: Seq<(u64, TraceV)>)
    requires
        m.len() > 0,
        entries_from(part, m.drop_last()),
    ensures
        entries_from(part, m),
{
    let pre = m.drop_last();
    assert forall|a: int| 0 <= a < part.len() implies entry_in(#[trigger] part[a], m) by {
        assert(entry_in(part[a], pre));
        let j = choose|j: int| 0 <= j < pre.len() && pre[j] == part[a];
        assert(m[j] == pre[j]);
        assert(0 <= j < m.len() && m[j] == part[a]);
    }
}

/// Entries drawn from a prefix never carry the key of the element after it.
proof fn lemma_entries_keys_fresh(part: Seq<(u64, TraceV)>, m: Seq<(u64, TraceV)>)
    requires
        m.len() > 0,
        trace_keys_unique(m),
        entries_from(part, m.drop_last()),
    ensures
        forall|a: int| 0 <= a < part.len() ==> (#[trigger] part[a]).0 != m.last().0,
{
    let pre = m.drop_last();
    assert forall|a: int| 0 <= a < part.len() implies (#[trigger] part[a]).0 != m.last().0 by {
        assert(entry_in(part[a], pre));
        let j = choose|j: int| 0 <= j < pre.len() && pre[j] == part[a];
        assert(m[j] == pre[j]);
        assert(m[j].0 != m[m.len() - 1].0);
    }
}

/// A sequence of entries drawn from a well-formed aggregate, with distinct
/// keys, is itself a well-formed aggregate.
proof fn lemma_part_traces_wf(part: Seq<(u64, TraceV)>, m: Seq<(u64, TraceV)>)
    requires
        traces_wf(m),
        entries_from(part, m),
        trace_keys_unique(part),
    ensures
        traces_wf(part),
{
    assert forall|i: int| 0 <= i < part.len() implies {
        &&& trace_wf((#[trigger] part[i]).1)
        &&& part[i].1.started >= 1
        &&& forall|j: int|
            0 <= j < part[i].1.spans.len() ==> part[i].1.spans[j].trace_id == part[i].0
    } by {
        assert(entry_in(part[i], m));
        let j = choose|j: int| 0 <= j < m.len() && m[j] == part[i];
        assert(trace_wf(m[j].1));
    }
}

/// Both parts of the drain are well formed and drawn from the aggregate.
pub proof fn lemma_parts_wf(m: Seq<(u64, TraceV)>)
    requires
        traces_wf(m),
    ensures
        traces_wf(spec_finished_part(m)),
        traces_wf(spec_unfinished_part(m)),
        entries_from(spec_finished_part(m), m),
        entries_from(spec_unfinished_part(m), m),
    decreases m.len(),
{
    if m.len() == 0 {
    } else {
        let pre = m.drop_last();
        let x = m.last();
        lemma_traces_wf_drop_last(m);
        lemma_parts_wf(pre);
        let fin = spec_finished_part(m);
        let unfin = spec_unfinished_part(m);
        let finp = spec_finished_part(pre);
        let unfinp = spec_unfinished_part(pre);
        lemma_entries_from_extend(finp, m);
        lemma_entries_from_extend(unfinp, m);
        lemma_entries_keys_fresh(finp, m);
        lemma_entries_keys_fresh(unfinp, m);
        if trace_complete(x.1) {
            assert(fin == finp.push(x));
            assert forall|i: int, j: int| 0 <= i < j < fin.len() implies fin[i].0 != fin[j].0 by {
                if j == fin.len() - 1 {
                    assert(fin[i] == finp[i]);
                    assert(fin[j] == x);
                } else {
                    assert(fin[i] == finp[i]);
                    assert(fin[j] == finp[j]);
                }
            }
            assert(entries_from(fin, m)) by {
                assert forall|a: int| 0 <= a < fin.len() implies entry_in(#[trigger] fin[a], m) by {
                    if a < finp.len() {
                        assert(fin[a] == finp[a]);
                        assert(entry_in(finp[a], m));
                    } else {
                        assert(m[m.len() - 1] == fin[a]);
                    }
                }
            }
            lemma_part_traces_wf(fin, m);
            lemma_part_traces_wf(unfin, m);
        } else {
            assert(unfin == unfinp.push(x));
            assert forall|i: int, j: int|
                0 <= i < j < unfin.len() implies unfin[i].0 != unfin[j].0 by {
                if j == unfin.len() - 1 {
                    assert(unfin[i] == unfinp[i]);
                    assert(unfin[j] == x);
                } else {
                    assert(unfin[i] == unfinp[i]);
                    assert(unfin[j] == unfinp[j]);
                }
            }
            assert(entries_from(unfin, m)) by {
                assert forall|a: int|
                    0 <= a < unfin.len() implies entry_in(#[trigger] unfin[a], m) by {
                    if a < unfinp.len() {
                        assert(unfin[a] == unfinp[a]);
                        assert(entry_in(unfinp[a], m));
                    } else {
                        assert(m[m.len() - 1] == unfin[a]);
                    }
                }
            }
            lemma_part_traces_wf(fin, m);
            lemma_part_traces_wf(unfin, m);
        }
    }
}

/// No entry of the incomplete part is complete.
pub proof fn lemma_unfinished_incomplete(m: Seq<(u64, TraceV)>)
    ensures
        forall|a: int|
            0 <= a < spec_unfinished_part(m).len() ==> !trace_complete(
                #[trigger] spec_unfinished_part(m)[a].1,
            ),
    decreases m.len(),
{
    if m.len() == 0 {
    } else {
        lemma_unfinished_incomplete(m.drop_last());
        let unfinp = spec_unfinished_part(m.drop_last());
        let unfin = spec_unfinished_part(m);
        assert forall|a: int|
            0 <= a < unfin.len() implies !trace_complete(#[trigger] unfin[a].1) by {
            if !trace_complete(m.last().1) {
                assert(unfin == unfinp.push(m.last()));
                if a < unfinp.len() {
                    assert(unfin[a] == unfinp[a]);
                } else {
                    assert(unfin[a] == m.last());
                }
            } else {
                assert(unfin == unfinp);
            }
        }
    }
}

/// An aggregate with no complete entry yields an empty finished part.
pub proof fn lemma_finished_part_empty(m: Seq<(u64, TraceV)>)
    requires
        forall|a: int| 0 <= a < m.len() ==> !trace_complete(#[trigger] m[a].1),
    ensures
        spec_finished_part(m).len() == 0,
    decreases m.len(),
{
    if m.len() == 0 {
    } else {
        assert forall|a: int|
            0 <= a < m.drop_last().len() implies !trace_complete(
            #[trigger] m.drop_last()[a].1,
        ) by {
            assert(m.drop_last()[a] == m[a]);
        }
        lemma_finished_part_empty(m.drop_last());
    }
}

/// Draining leaves nothing behind for a second drain: the finished part of
/// the incomplete remainder is empty.
pub proof fn lemma_drain_twice(m: Seq<(u64, TraceV)>)
    ensures
        spec_finished_part(spec_unfinished_part(m)).len() == 0,
{
    lemma_unfinished_incomplete(m);
    lemma_finished_part_empty(spec_unfinished_part(m));
}

/// The per-session aggregate: one trace per `trace_id`.
#[derive(Debug)]
pub struct Traces {
    pub pairs: Vec<(u64, Trace)>,
}

impl View for Traces {
    type V = Seq<(u64, TraceV)>;

    open spec fn view(&self) -> Seq<(u64, TraceV)> {
        Seq::new(self.pairs@.len(), |i: int| (self.pairs@[i].0, self.pairs@[i].1@))
    }
}

impl Traces {
    /// The aggregate invariant.
    pub open spec fn wf(&self) -> bool {
        traces_wf(self@)
    }

    pub fn new() -> (r: Traces)
        ensures
            r@ == Seq::<(u64, TraceV)>::empty(),
            r.wf(),
    {
        let r = Traces { pairs: Vec::new() };
        proof {
            assert(r@ =~= Seq::<(u64, TraceV)>::empty());
        }
        r
    }

    pub fn len(&self) -> (n: usize)
        ensures
            n == self@.len(),
    {
        self.pairs.len()
    }

    /// The position of trace `tid`, if present.
    pub fn find_trace(&self, tid: u64) -> (r: Option<usize>)
        requires
            trace_keys_unique(self@),
        ensures
            match r {
                Some(i) => has_trace(self@, tid) && i == trace_index_of(self@, tid) && 0 <= i
                    < self@.len(),
                None => !has_trace(self@, tid),
            },
    {
        let mut i: usize = 0;
        while i < self.pairs.len()
            invariant
                i <= self.pairs@.len(),
                trace_keys_unique(self@),
                forall|j: int| 0 <= j < i ==> self@[j].0 != tid,
            decreases self.pairs@.len() - i,
        {
            if self.pairs[i].0 == tid {
                proof {
                    assert(self@[i as int].0 == tid);
                    lemma_trace_found(self@, tid, i as int);
                }
                return Some(i);
            }
            i = i + 1;
        }
        None
    }

    /// Borrow the trace with identifier `tid`, if present.
    pub fn get(&self, tid: u64) -> (r: Option<&Trace>)
        requires
            trace_keys_unique(self@),
        ensures
            match r {
                Some(t) => has_trace(self@, tid) && t@ == self@[trace_index_of(self@, tid)].1,
                None => !has_trace(self@, tid),
            },
    {
        match self.find_trace(tid) {
            Some(i) => Some(&self.pairs[i].1),
            None => None,
        }
    }

    /// Record a start event for `span`: create its trace if needed, count the
    /// start, and keep the span, replacing any span with the same identifier.
    pub fn start_span(&mut self, span: Span)
        requires
            old(self).wf(),
            span_wf(span@),
        ensures
            final(self)@ == spec_start_span(old(self)@, span@),
            final(self).wf(),
    {
        let tid = span.trace_id;
        let sid = span.span_id;
        match self.find_trace(tid) {
            Some(ti) => {
                let started = self.pairs[ti].1.started;
                if started == u64::MAX {
                    return ;
                }
                proof {
                    assert(trace_wf(self@[ti as int].1));
                }
                let si_opt = self.pairs[ti].1.find_span(sid);
                self.pairs[ti].1.started = started + 1;
                match si_opt {
                    Some(si) => {
                        self.pairs[ti].1.spans[si] = span;
                    },
                    None => {
                        self.pairs[ti].1.spans.push(span);
                    },
                }
                proof {
                    assert(final(self)@ =~~= spec_start_span(old(self)@, span@));
                    assert(final(self).wf());
                }
            },
            None => {
                let mut spans: Vec<Span> = Vec::new();
                spans.push(span);
                self.pairs.push((tid, Trace { started: 1, finished: 0, spans }));
                proof {
                    assert(final(self)@ =~~= spec_start_span(old(self)@, span@));
                    assert(final(self).wf());
                }
            },
        }
    }

    /// Record a finish event: when the named span exists, count the finish,
    /// set its duration to `finish - start` (clamped at zero), and merge the
    /// tags; otherwise discard the event silently.
    pub fn finish_span(
        &mut self,
        trace_id: u64,
        span_id: u64,
        finish: u64,
        meta: &Meta,
        metrics: &Metrics,
    )
        requires
            old(self).wf(),
            meta.wf(),
            metrics.wf(),
        ensures
            final(self)@ == spec_finish_span(
                old(self)@,
                trace_id,
                span_id,
                finish,
                meta@,
                metrics@,
            ),
            final(self).wf(),
    {
        let ti = match self.find_trace(trace_id) {
            Some(i) => i,
            None => {
                return ;
            },
        };
        proof {
            assert(trace_wf(self@[ti as int].1));
        }
        let si = match self.pairs[ti].1.find_span(span_id) {
            Some(i) => i,
            None => {
                return ;
            },
        };
        proof {
            assert(span_wf(self@[ti as int].1.spans[si as int]));
        }
        let f = self.pairs[ti].1.finished;
        self.pairs[ti].1.finished = if f < u64::MAX {
            f + 1
        } else {
            f
        };
        let st = self.pairs[ti].1.spans[si].start;
        self.pairs[ti].1.spans[si].duration = if finish >= st {
            finish - st
        } else {
            0
        };
        self.pairs[ti].1.spans[si].meta.extend(meta);
        self.pairs[ti].1.spans[si].metrics.extend(metrics);
        proof {
            assert(final(self)@ =~~= spec_finish_span(
                old(self)@,
                trace_id,
                span_id,
                finish,
                meta@,
                metrics@,
            ));
            assert(final(self).wf());
        }
    }

    /// Merge tags into the named span; discard the event silently when the
    /// trace or span is unknown.
    pub fn add_tags(&mut self, trace_id: u64, span_id: u64, meta: &Meta, metrics: &Metrics)
        requires
            old(self).wf(),
            meta.wf(),
            metrics.wf(),
        ensures
            final(self)@ == spec_add_tags(old(self)@, trace_id, span_id, meta@, metrics@),
            final(self).wf(),
    {
        let ti = match self.find_trace(trace_id) {
            Some(i) => i,
            None => {
                return ;
            },
        };
        proof {
            assert(trace_wf(self@[ti as int].1));
        }
        let si = match self.pairs[ti].1.find_span(span_id) {
            Some(i) => i,
            None => {
                return ;
            },
        };
        proof {
            assert(span_wf(self@[ti as int].1.spans[si as int]));
        }
        self.pairs[ti].1.spans[si].meta.extend(meta);
        self.pairs[ti].1.spans[si].metrics.extend(metrics);
        proof {
            assert(final(self)@ =~~= spec_add_tags(old(self)@, trace_id, span_id, meta@, metrics@));
            assert(final(self).wf());
        }
    }

    /// Flag the named span as errored and merge the error tags; discard the
    /// event silently when the trace or span is unknown.
    pub fn add_error(&mut self, trace_id: u64, span_id: u64, meta: &Meta)
        requires
            old(self).wf(),
            meta.wf(),
        ensures
            final(self)@ == spec_add_error(old(self)@, trace_id, span_id, meta@),
            final(self).wf(),
    {
        let ti = match self.find_trace(trace_id) {
            Some(i) => i,
            None => {
                return ;
            },
        };
        proof {
            assert(trace_wf(self@[ti as int].1));
        }
        let si = match self.pairs[ti].1.find_span(span_id) {
            Some(i) => i,
            None => {
                return ;
            },
        };
        proof {
            assert(span_wf(self@[ti as int].1.spans[si as int]));
        }
        self.pairs[ti].1.spans[si].error = 1;
        self.pairs[ti].1.spans[si].meta.extend(meta);
        proof {
            assert(final(self)@ =~~= spec_add_error(old(self)@, trace_id, span_id, meta@));
            assert(final(self).wf());
        }
    }

    /// Remove and return every complete trace, keeping the incomplete ones.
    pub fn drain_finished(&mut self) -> (r: Traces)
        requires
            old(self).wf(),
        ensures
            r@ == spec_finished_part(old(self)@),
            final(self)@ == spec_unfinished_part(old(self)@),
            r.wf(),
            final(self).wf(),
    {
        let ghost orig = self@;
        let mut fin = Traces { pairs: Vec::new() };
        let mut rest = Traces { pairs: Vec::new() };
        let ghost mut k: int = 0;
        proof {
            assert(fin@ =~= spec_finished_part(orig.take(0)));
            assert(rest@ =~= spec_unfinished_part(orig.take(0)));
            assert(self@ =~= orig.skip(0));
        }
        while self.pairs.len() > 0
            invariant
                0 <= k <= orig.len(),
                self@ == orig.skip(k),
                self.pairs@.len() == orig.len() - k,
                fin@ == spec_finished_part(orig.take(k)),
                rest@ == spec_unfinished_part(orig.take(k)),
            decreases self.pairs@.len(),
        {
            let ghost pre_view = self@;
            let ghost pre_pairs = self.pairs@;
            let ghost fin_pre = fin@;
            let ghost rest_pre = rest@;
            let p = self.pairs.remove(0);
            proof {
                assert(pre_view[0] == orig[k]);
                assert((p.0, p.1@) == pre_view[0]);
                assert(orig.take(k + 1).drop_last() =~= orig.take(k));
                assert(orig.take(k + 1).last() == orig[k]);
            }
            if p.1.started == p.1.finished {
                fin.pairs.push(p);
                proof {
                    assert(trace_complete(orig[k].1));
                    assert(fin@ =~= fin_pre.push(orig[k]));
                    assert(spec_finished_part(orig.take(k + 1)) == spec_finished_part(
                        orig.take(k),
                    ).push(orig[k]));
                    assert(spec_unfinished_part(orig.take(k + 1)) == spec_unfinished_part(
                        orig.take(k),
                    ));
                }
            } else {
                rest.pairs.push(p);
                proof {
                    assert(!trace_complete(orig[k].1));
                    assert(rest@ =~= rest_pre.push(orig[k]));
                    assert(spec_unfinished_part(orig.take(k + 1)) == spec_unfinished_part(
                        orig.take(k),
                    ).push(orig[k]));
                    assert(spec_finished_part(orig.take(k + 1)) == spec_finished_part(
                        orig.take(k),
                    ));
                }
            }
            proof {
                assert(self.pairs@ =~= pre_pairs.skip(1));
                assert forall|i2: int|
                    0 <= i2 < self@.len() implies self@[i2] == orig.skip(k + 1)[i2] by {
                    assert(self.pairs@[i2] == pre_pairs[i2 + 1]);
                    assert(pre_view[i2 + 1] == orig.skip(k)[i2 + 1]);
                }
                assert(self@ =~= orig.skip(k + 1));
                k = k + 1;
            }
        }
        proof {
            assert(orig.take(k) =~= orig);
            lemma_parts_wf(orig);
        }
        self.pairs = rest.pairs;
        proof {
            assert(final(self)@ =~= spec_unfinished_part(orig));
        }
        fin
    }
}

} // verus!
