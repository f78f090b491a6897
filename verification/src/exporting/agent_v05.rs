//! The string-deduplicated downstream encoder: a two-element MessagePack
//! document holding a global string table and traces whose string fields
//! are table indices. The table starts with the empty string at index zero,
//! gathers every span string in iteration order, and never holds the same
//! content twice.

use vstd::prelude::*;

use crate::exporting::{
    check_traces_encodable, lemma_concat_step, span_encodable, str_fits, trace_encodable,
    traces_encodable, wire_duration,
};
use crate::interning::{spec_intern, str_eq};
use crate::msgpack::{
    enc_array_len, enc_f64_bits, enc_map_len, enc_str, enc_uint, write_array_len, write_f64_bits,
    write_map_len, write_str, write_uint,
};
use crate::tracing::{Meta, Metrics, Span, SpanV, Trace, TraceV, Traces};
use crate::Error;

verus! {

// ---------------------------------------------------------------------------
// The string table: model
// ---------------------------------------------------------------------------
/// No content appears twice in the table.
pub open spec fn tbl_nodup(tbl: Seq<Seq<char>>) -> bool {
    forall|i: int, j: int| 0 <= i < j < tbl.len() ==> tbl[i] != tbl[j]
}

/// Every table entry fits the wire.
pub open spec fn tbl_fits(tbl: Seq<Seq<char>>) -> bool {
    forall|i: int| 0 <= i < tbl.len() ==> str_fits(#[trigger] tbl[i])
}

/// The position of content `s`; meaningful when present and unique.
pub open spec fn tbl_pos(tbl: Seq<Seq<char>>, s: Seq<char>) -> int {
    choose|i: int| 0 <= i < tbl.len() && tbl[i] == s
}

/// Every string the span references is in the table.
pub open spec fn span_in_table(s: SpanV, tbl: Seq<Seq<char>>) -> bool {
    &&& tbl.contains(s.service)
    &&& tbl.contains(s.name)
    &&& tbl.contains(s.resource)
    &&& tbl.contains(s.span_type)
    &&& forall|i: int|
        0 <= i < s.meta.len() ==> tbl.contains((#[trigger] s.meta[i]).0) && tbl.contains(
            s.meta[i].1,
        )
    &&& forall|i: int| 0 <= i < s.metrics.len() ==> tbl.contains((#[trigger] s.metrics[i]).0)
}

/// The table after caching the strings of the string-valued tag entries, in
/// order, key before value.
pub open spec fn cache_meta_entries(tbl: Seq<Seq<char>>, entries: Seq<(Seq<char>, Seq<char>)>) -> Seq<
    Seq<char>,
>
    decreases entries.len(),
{
    if entries.len() == 0 {
        tbl
    } else {
        let t = cache_meta_entries(tbl, entries.drop_last());
        spec_intern(spec_intern(t, entries.last().0), entries.last().1)
    }
}

/// The table after caching the keys of the numeric tag entries, in order.
pub open spec fn cache_metrics_entries(tbl: Seq<Seq<char>>, entries: Seq<(Seq<char>, u64)>) -> Seq<
    Seq<char>,
>
    decreases entries.len(),
{
    if entries.len() == 0 {
        tbl
    } else {
        spec_intern(cache_metrics_entries(tbl, entries.drop_last()), entries.last().0)
    }
}

/// The table after caching every string of one span: service, name,
/// resource, type, then the tag entries.
pub open spec fn cache_span(tbl: Seq<Seq<char>>, s: SpanV) -> Seq<Seq<char>> {
    cache_metrics_entries(
        cache_meta_entries(
            spec_intern(spec_intern(spec_intern(spec_intern(tbl, s.service), s.name), s.resource), s.span_type),
            s.meta,
        ),
        s.metrics,
    )
}

/// The table after caching the spans of one trace, in order.
pub open spec fn cache_spans(tbl: Seq<Seq<char>>, spans: Seq<SpanV>) -> Seq<Seq<char>>
    decreases spans.len(),
{
    if spans.len() == 0 {
        tbl
    } else {
        cache_span(cache_spans(tbl, spans.drop_last()), spans.last())
    }
}

/// The table after caching every trace of the batch, in order.
pub open spec fn cache_traces(tbl: Seq<Seq<char>>, m: Seq<(u64, TraceV)>) -> Seq<Seq<char>>
    decreases m.len(),
{
    if m.len() == 0 {
        tbl
    } else {
        cache_spans(cache_traces(tbl, m.drop_last()), m.last().1.spans)
    }
}

/// The whole string table of a batch: the empty string, then every span
/// string in iteration order, each kept once.
pub open spec fn spec_table_v05(m: Seq<(u64, TraceV)>) -> Seq<Seq<char>> {
    cache_traces(seq![Seq::<char>::empty()], m)
}

// ---------------------------------------------------------------------------
// Caching lemmas
// ---------------------------------------------------------------------------
/// Caching one string keeps the table a duplicate-free extension holding it.
pub proof fn lemma_intern_props(tbl: Seq<Seq<char>>, s: Seq<char>)
    ensures
        tbl.len() <= spec_intern(tbl, s).len(),
        forall|k: int| 0 <= k < tbl.len() ==> spec_intern(tbl, s)[k] == tbl[k],
        spec_intern(tbl, s).contains(s),
        forall|x: Seq<char>| tbl.contains(x) ==> spec_intern(tbl, s).contains(x),
        tbl_nodup(tbl) ==> tbl_nodup(spec_intern(tbl, s)),
        tbl_fits(tbl) && str_fits(s) ==> tbl_fits(spec_intern(tbl, s)),
{
    let res = spec_intern(tbl, s);
    if tbl.contains(s) {
    } else {
        assert(res[tbl.len() as int] == s);
        assert(res.contains(s));
        assert forall|x: Seq<char>| tbl.contains(x) implies res.contains(x) by {
            let i = choose|i: int| 0 <= i < tbl.len() && tbl[i] == x;
            assert(res[i] == x);
        }
        if tbl_nodup(tbl) {
            assert forall|i: int, j: int| 0 <= i < j < res.len() implies res[i] != res[j] by {
                if j == res.len() - 1 {
                    assert(res[i] == tbl[i]);
                    assert(!tbl.contains(s));
                    assert(tbl[i] != s);
                }
            }
        }
        if tbl_fits(tbl) && str_fits(s) {
            assert forall|i: int| 0 <= i < res.len() implies str_fits(#[trigger] res[i]) by {
                if i < tbl.len() {
                    assert(res[i] == tbl[i]);
                }
            }
        }
    }
}

/// A span whose strings are in a table keeps them in any extension.
pub proof fn lemma_span_in_table_monotone(s: SpanV, t1: Seq<Seq<char>>, t2: Seq<Seq<char>>)
    requires
        span_in_table(s, t1),
        forall|x: Seq<char>| t1.contains(x) ==> t2.contains(x),
    ensures
        span_in_table(s, t2),
{
    assert forall|i: int|
        0 <= i < s.meta.len() implies t2.contains((#[trigger] s.meta[i]).0) && t2.contains(
        s.meta[i].1,
    ) by {
        assert(t1.contains(s.meta[i].0));
        assert(t1.contains(s.meta[i].1));
    }
    assert forall|i: int| 0 <= i < s.metrics.len() implies t2.contains(
        (#[trigger] s.metrics[i]).0,
    ) by {
        assert(t1.contains(s.metrics[i].0));
    }
}

/// Caching the string-valued tag entries keeps the table a duplicate-free
/// extension holding every key and value.
pub proof fn lemma_cache_meta_entries_props(tbl: Seq<Seq<char>>, entries: Seq<(Seq<char>, Seq<char>)>)
    ensures
        tbl.len() <= cache_meta_entries(tbl, entries).len(),
        forall|k: int| 0 <= k < tbl.len() ==> cache_meta_entries(tbl, entries)[k] == tbl[k],
        forall|x: Seq<char>| tbl.contains(x) ==> cache_meta_entries(tbl, entries).contains(x),
        forall|i: int|
            0 <= i < entries.len() ==> cache_meta_entries(tbl, entries).contains(
                (#[trigger] entries[i]).0,
            ) && cache_meta_entries(tbl, entries).contains(entries[i].1),
        tbl_nodup(tbl) ==> tbl_nodup(cache_meta_entries(tbl, entries)),
        tbl_fits(tbl) && (forall|i: int|
            0 <= i < entries.len() ==> str_fits((#[trigger] entries[i]).0) && str_fits(
                entries[i].1,
            )) ==> tbl_fits(cache_meta_entries(tbl, entries)),
    decreases entries.len(),
{
    if entries.len() == 0 {
    } else {
        let pre = entries.drop_last();
        let t1 = cache_meta_entries(tbl, pre);
        let t2 = spec_intern(t1, entries.last().0);
        let res = cache_meta_entries(tbl, entries);
        lemma_cache_meta_entries_props(tbl, pre);
        lemma_intern_props(t1, entries.last().0);
        lemma_intern_props(t2, entries.last().1);
        assert forall|i: int|
            0 <= i < entries.len() implies res.contains((#[trigger] entries[i]).0) && res.contains(
            entries[i].1,
        ) by {
            if i < entries.len() - 1 {
                assert(pre[i] == entries[i]);
                assert(t1.contains(entries[i].0));
                assert(t1.contains(entries[i].1));
                assert(t2.contains(entries[i].0));
                assert(t2.contains(entries[i].1));
            } else {
                assert(t2.contains(entries[i].0));
            }
        }
        if tbl_fits(tbl) && (forall|i: int|
            0 <= i < entries.len() ==> str_fits((#[trigger] entries[i]).0) && str_fits(
                entries[i].1,
            )) {
            assert forall|i: int|
                0 <= i < pre.len() implies str_fits((#[trigger] pre[i]).0) && str_fits(
                pre[i].1,
            ) by {
                assert(pre[i] == entries[i]);
            }
            assert(str_fits(entries.last().0) && str_fits(entries.last().1));
        }
    }
}

/// Caching the numeric tag keys keeps the table a duplicate-free extension
/// holding every key.
pub proof fn lemma_cache_metrics_entries_props(tbl: Seq<Seq<char>>, entries: Seq<(Seq<char>, u64)>)
    ensures
        tbl.len() <= cache_metrics_entries(tbl, entries).len(),
        forall|k: int| 0 <= k < tbl.len() ==> cache_metrics_entries(tbl, entries)[k] == tbl[k],
        forall|x: Seq<char>| tbl.contains(x) ==> cache_metrics_entries(tbl, entries).contains(x),
        forall|i: int|
            0 <= i < entries.len() ==> cache_metrics_entries(tbl, entries).contains(
                (#[trigger] entries[i]).0,
            ),
        tbl_nodup(tbl) ==> tbl_nodup(cache_metrics_entries(tbl, entries)),
        tbl_fits(tbl) && (forall|i: int|
            0 <= i < entries.len() ==> str_fits((#[trigger] entries[i]).0)) ==> tbl_fits(
            cache_metrics_entries(tbl, entries),
        ),
    decreases entries.len(),
{
    if entries.len() == 0 {
    } else {
        let pre = entries.drop_last();
        let t1 = cache_metrics_entries(tbl, pre);
        let res = cache_metrics_entries(tbl, entries);
        lemma_cache_metrics_entries_props(tbl, pre);
        lemma_intern_props(t1, entries.last().0);
        assert forall|i: int|
            0 <= i < entries.len() implies res.contains((#[trigger] entries[i]).0) by {
            if i < entries.len() - 1 {
                assert(pre[i] == entries[i]);
                assert(t1.contains(entries[i].0));
            }
        }
        if tbl_fits(tbl) && (forall|i: int|
            0 <= i < entries.len() ==> str_fits((#[trigger] entries[i]).0)) {
            assert forall|i: int| 0 <= i < pre.len() implies str_fits((#[trigger] pre[i]).0) by {
                assert(pre[i] == entries[i]);
            }
            assert(str_fits(entries.last().0));
        }
    }
}

/// Caching one span keeps the table a duplicate-free extension holding every
/// string of the span.
pub proof fn lemma_cache_span_props(tbl: Seq<Seq<char>>, s: SpanV)
    ensures
        tbl.len() <= cache_span(tbl, s).len(),
        forall|k: int| 0 <= k < tbl.len() ==> cache_span(tbl, s)[k] == tbl[k],
        forall|x: Seq<char>| tbl.contains(x) ==> cache_span(tbl, s).contains(x),
        span_in_table(s, cache_span(tbl, s)),
        tbl_nodup(tbl) ==> tbl_nodup(cache_span(tbl, s)),
        tbl_fits(tbl) && span_encodable(s) ==> tbl_fits(cache_span(tbl, s)),
{
    let t1 = spec_intern(tbl, s.service);
    let t2 = spec_intern(t1, s.name);
    let t3 = spec_intern(t2, s.resource);
    let t4 = spec_intern(t3, s.span_type);
    let t5 = cache_meta_entries(t4, s.meta);
    let res = cache_span(tbl, s);
    lemma_intern_props(tbl, s.service);
    lemma_intern_props(t1, s.name);
    lemma_intern_props(t2, s.resource);
    lemma_intern_props(t3, s.span_type);
    lemma_cache_meta_entries_props(t4, s.meta);
    lemma_cache_metrics_entries_props(t5, s.metrics);
    assert(res.contains(s.service));
    assert(res.contains(s.name));
    assert(res.contains(s.resource));
    assert(res.contains(s.span_type));
    assert forall|i: int|
        0 <= i < s.meta.len() implies res.contains((#[trigger] s.meta[i]).0) && res.contains(
        s.meta[i].1,
    ) by {
        assert(t5.contains(s.meta[i].0));
        assert(t5.contains(s.meta[i].1));
    }
    assert forall|i: int| 0 <= i < s.metrics.len() implies res.contains(
        (#[trigger] s.metrics[i]).0,
    ) by {
        assert(res.contains(s.metrics[i].0));
    }
}

/// Caching a sequence of spans keeps the table a duplicate-free extension
/// holding every string of every span.
pub proof fn lemma_cache_spans_props(tbl: Seq<Seq<char>>, spans: Seq<SpanV>)
    ensures
        tbl.len() <= cache_spans(tbl, spans).len(),
        forall|k: int| 0 <= k < tbl.len() ==> cache_spans(tbl, spans)[k] == tbl[k],
        forall|x: Seq<char>| tbl.contains(x) ==> cache_spans(tbl, spans).contains(x),
        forall|i: int|
            0 <= i < spans.len() ==> span_in_table(#[trigger] spans[i], cache_spans(tbl, spans)),
        tbl_nodup(tbl) ==> tbl_nodup(cache_spans(tbl, spans)),
        tbl_fits(tbl) && (forall|i: int| 0 <= i < spans.len() ==> span_encodable(
            #[trigger] spans[i],
        )) ==> tbl_fits(cache_spans(tbl, spans)),
    decreases spans.len(),
{
    if spans.len() == 0 {
    } else {
        let pre = spans.drop_last();
        let t1 = cache_spans(tbl, pre);
        let res = cache_spans(tbl, spans);
        lemma_cache_spans_props(tbl, pre);
        lemma_cache_span_props(t1, spans.last());
        assert forall|i: int| 0 <= i < spans.len() implies span_in_table(
            #[trigger] spans[i],
            res,
        ) by {
            if i < spans.len() - 1 {
                assert(pre[i] == spans[i]);
                assert(span_in_table(spans[i], t1));
                lemma_span_in_table_monotone(spans[i], t1, res);
            }
        }
        if tbl_fits(tbl) && (forall|i: int| 0 <= i < spans.len() ==> span_encodable(
            #[trigger] spans[i],
        )) {
            assert forall|i: int| 0 <= i < pre.len() implies span_encodable(
                #[trigger] pre[i],
            ) by {
                assert(pre[i] == spans[i]);
            }
            assert(span_encodable(spans.last()));
        }
    }
}

/// Caching a batch keeps the table a duplicate-free extension holding every
/// string of every span of every trace.
pub proof fn lemma_cache_traces_props(tbl: Seq<Seq<char>>, m: Seq<(u64, TraceV)>)
    ensures
        tbl.len() <= cache_traces(tbl, m).len(),
        forall|k: int| 0 <= k < tbl.len() ==> cache_traces(tbl, m)[k] == tbl[k],
        forall|x: Seq<char>| tbl.contains(x) ==> cache_traces(tbl, m).contains(x),
        forall|t: int, i: int|
            0 <= t < m.len() && 0 <= i < m[t].1.spans.len() ==> span_in_table(
                #[trigger] m[t].1.spans[i],
                cache_traces(tbl, m),
            ),
        tbl_nodup(tbl) ==> tbl_nodup(cache_traces(tbl, m)),
        tbl_fits(tbl) && traces_encodable(m) ==> tbl_fits(cache_traces(tbl, m)),
    decreases m.len(),
{
    if m.len() == 0 {
    } else {
        let pre = m.drop_last();
        let t1 = cache_traces(tbl, pre);
        let res = cache_traces(tbl, m);
        lemma_cache_traces_props(tbl, pre);
        lemma_cache_spans_props(t1, m.last().1.spans);
        assert forall|t: int, i: int|
            0 <= t < m.len() && 0 <= i < m[t].1.spans.len() implies span_in_table(
            #[trigger] m[t].1.spans[i],
            res,
        ) by {
            if t < m.len() - 1 {
                assert(pre[t] == m[t]);
                assert(span_in_table(m[t].1.spans[i], t1));
                lemma_span_in_table_monotone(m[t].1.spans[i], t1, res);
            } else {
                assert(m.last() == m[t]);
            }
        }
        if tbl_fits(tbl) && traces_encodable(m) {
            assert(traces_encodable(pre)) by {
                assert forall|i: int| 0 <= i < pre.len() implies trace_encodable(
                    (#[trigger] pre[i]).1,
                ) by {
                    assert(pre[i] == m[i]);
                }
            }
            assert(trace_encodable(m.last().1));
        }
    }
}

/// The string table of a batch: index zero is the empty string, no content
/// appears twice, every string of every exported span is present, and every
/// entry fits the wire when the batch does.
pub proof fn lemma_table_v05_props(m: Seq<(u64, TraceV)>)
    ensures
        spec_table_v05(m).len() >= 1,
        spec_table_v05(m)[0] == Seq::<char>::empty(),
        tbl_nodup(spec_table_v05(m)),
        forall|t: int, i: int|
            0 <= t < m.len() && 0 <= i < m[t].1.spans.len() ==> span_in_table(
                #[trigger] m[t].1.spans[i],
                spec_table_v05(m),
            ),
        traces_encodable(m) ==> tbl_fits(spec_table_v05(m)),
{
    let seed = seq![Seq::<char>::empty()];
    assert(tbl_nodup(seed));
    assert(str_fits(seed[0]));
    assert(tbl_fits(seed));
    lemma_cache_traces_props(seed, m);
}

/// Under unique contents, the position of a found entry is its index.
pub proof fn lemma_tbl_found(tbl: Seq<Seq<char>>, s: Seq<char>, i: int)
    requires
        tbl_nodup(tbl),
        0 <= i < tbl.len(),
        tbl[i] == s,
    ensures
        tbl.contains(s),
        tbl_pos(tbl, s) == i,
{
    assert(tbl.contains(s));
    let w = tbl_pos(tbl, s);
    assert(0 <= w < tbl.len() && tbl[w] == s);
    if w < i {
        assert(tbl[w] != tbl[i]);
    } else if i < w {
        assert(tbl[i] != tbl[w]);
    }
}

// ---------------------------------------------------------------------------
// The string table: executable
// ---------------------------------------------------------------------------
/// The global string table under construction: contents in insertion order,
/// never twice.
pub struct StringTable {
    pub strings: Vec<String>,
}

impl View for StringTable {
    type V = Seq<Seq<char>>;

    open spec fn view(&self) -> Seq<Seq<char>> {
        Seq::new(self.strings@.len(), |i: int| self.strings@[i]@)
    }
}

impl StringTable {
    /// No content appears twice.
    pub open spec fn wf(&self) -> bool {
        tbl_nodup(self@)
    }

    /// A fresh table holding the empty string at index zero.
    pub fn new() -> (r: StringTable)
        ensures
            r@ =~= seq![Seq::<char>::empty()],
            r.wf(),
    {
        let mut strings: Vec<String> = Vec::new();
        strings.push(String::new());
        let r = StringTable { strings };
        proof {
            assert(r@ =~= seq![Seq::<char>::empty()]);
        }
        r
    }

    pub fn len(&self) -> (n: usize)
        ensures
            n == self@.len(),
    {
        self.strings.len()
    }

    /// Add the string's content unless it is already present.
    pub fn cache_string(&mut self, s: &String)
        requires
            old(self).wf(),
        ensures
            final(self)@ == spec_intern(old(self)@, s@),
            final(self).wf(),
    {
        let mut i: usize = 0;
        while i < self.strings.len()
            invariant
                self.wf(),
                *self == *old(self),
                i <= self.strings@.len(),
                forall|j: int| 0 <= j < i ==> self@[j] != s@,
            decreases self.strings@.len() - i,
        {
            if str_eq(self.strings[i].as_str(), s.as_str()) {
                proof {
                    assert(self@[i as int] == s@);
                    assert(self@.contains(s@));
                }
                return ;
            }
            i = i + 1;
        }
        proof {
            assert(!self@.contains(s@));
        }
        self.strings.push(s.clone());
        proof {
            assert(final(self)@ =~= old(self)@.push(s@));
            lemma_intern_props(old(self)@, s@);
        }
    }

    /// The index of content already in the table.
    pub fn position_of(&self, s: &String) -> (r: usize)
        requires
            self.wf(),
            self@.contains(s@),
        ensures
            r == tbl_pos(self@, s@),
            0 <= r < self@.len(),
            self@[r as int] == s@,
    {
        let mut i: usize = 0;
        while i < self.strings.len()
            invariant
                self.wf(),
                self@.contains(s@),
                i <= self.strings@.len(),
                forall|j: int| 0 <= j < i ==> self@[j] != s@,
            decreases self.strings@.len() - i,
        {
            if str_eq(self.strings[i].as_str(), s.as_str()) {
                proof {
                    assert(self@[i as int] == s@);
                    lemma_tbl_found(self@, s@, i as int);
                }
                return i;
            }
            i = i + 1;
        }
        proof {
            let w = tbl_pos(self@, s@);
            assert(0 <= w < self@.len() && self@[w] == s@);
            assert(false);
        }
        0
    }
}
// ---------------------------------------------------------------------------
// Specification of the v0.5 encoding
// ---------------------------------------------------------------------------
/// The encoding of the table contents, in order.
pub open spec fn enc_table_entries_v05(tbl: Seq<Seq<char>>) -> Seq<u8>
    decreases tbl.len(),
{
    if tbl.len() == 0 {
        Seq::empty()
    } else {
        enc_table_entries_v05(tbl.drop_last()) + enc_str(tbl.last())
    }
}

/// The encoding of the string table: an array of its contents.
pub open spec fn enc_strings_v05(tbl: Seq<Seq<char>>) -> Seq<u8> {
    enc_array_len(tbl.len() as u32) + enc_table_entries_v05(tbl)
}

/// The encoding of the string-valued tag entries: a table index for each key
/// and each value.
pub open spec fn enc_meta_entries_v05(
    entries: Seq<(Seq<char>, Seq<char>)>,
    tbl: Seq<Seq<char>>,
) -> Seq<u8>
    decreases entries.len(),
{
    if entries.len() == 0 {
        Seq::empty()
    } else {
        enc_meta_entries_v05(entries.drop_last(), tbl) + enc_uint(
            tbl_pos(tbl, entries.last().0) as u64,
        ) + enc_uint(tbl_pos(tbl, entries.last().1) as u64)
    }
}

/// The encoding of the numeric tag entries: a table index for each key and
/// the float bits of each value.
pub open spec fn enc_metrics_entries_v05(entries: Seq<(Seq<char>, u64)>, tbl: Seq<Seq<char>>) -> Seq<
    u8,
>
    decreases entries.len(),
{
    if entries.len() == 0 {
        Seq::empty()
    } else {
        enc_metrics_entries_v05(entries.drop_last(), tbl) + enc_uint(
            tbl_pos(tbl, entries.last().0) as u64,
        ) + enc_f64_bits(entries.last().1)
    }
}

/// The encoding of one span: an array of exactly twelve elements, string
/// fields as table indices, the wire duration one more than the in-memory
/// duration.
pub open spec fn enc_span_v05(s: SpanV, tbl: Seq<Seq<char>>) -> Seq<u8> {
    enc_array_len(12) + enc_uint(tbl_pos(tbl, s.service) as u64) + enc_uint(
        tbl_pos(tbl, s.name) as u64,
    ) + enc_uint(tbl_pos(tbl, s.resource) as u64) + enc_uint(s.trace_id) + enc_uint(s.span_id)
        + enc_uint(s.parent_id) + enc_uint(s.start) + enc_uint(wire_duration(s.duration))
        + enc_uint(s.error) + enc_map_len(s.meta.len() as u32) + enc_meta_entries_v05(s.meta, tbl)
        + enc_map_len(s.metrics.len() as u32) + enc_metrics_entries_v05(s.metrics, tbl) + enc_uint(
        tbl_pos(tbl, s.span_type) as u64,
    )
}

/// The encoding of the spans of one trace, in order.
pub open spec fn enc_spans_v05(spans: Seq<SpanV>, tbl: Seq<Seq<char>>) -> Seq<u8>
    decreases spans.len(),
{
    if spans.len() == 0 {
        Seq::empty()
    } else {
        enc_spans_v05(spans.drop_last(), tbl) + enc_span_v05(spans.last(), tbl)
    }
}

/// The encoding of one trace: an array of its spans.
pub open spec fn enc_trace_v05(t: TraceV, tbl: Seq<Seq<char>>) -> Seq<u8> {
    enc_array_len(t.spans.len() as u32) + enc_spans_v05(t.spans, tbl)
}

/// The encoding of the batch entries, in order.
pub open spec fn enc_traces_entries_v05(m: Seq<(u64, TraceV)>, tbl: Seq<Seq<char>>) -> Seq<u8>
    decreases m.len(),
{
    if m.len() == 0 {
        Seq::empty()
    } else {
        enc_traces_entries_v05(m.drop_last(), tbl) + enc_trace_v05(m.last().1, tbl)
    }
}

/// The encoding of a whole batch: a two-element array holding the string
/// table and the traces.
pub open spec fn enc_traces_v05(m: Seq<(u64, TraceV)>) -> Seq<u8> {
    enc_array_len(2) + enc_strings_v05(spec_table_v05(m)) + enc_array_len(m.len() as u32)
        + enc_traces_entries_v05(m, spec_table_v05(m))
}

// ---------------------------------------------------------------------------
// The encoder
// ---------------------------------------------------------------------------
/// The string-deduplicated agent encoder.
pub struct AgentExporter {}

impl Default for AgentExporter {
    fn default() -> (r: AgentExporter) {
        AgentExporter::new()
    }
}

impl AgentExporter {
    pub fn new() -> (r: AgentExporter) {
        AgentExporter {  }
    }

    /// Cache every string of every span of one trace.
    #[verifier::loop_isolation(false)]
    pub fn cache_strings(&self, table: &mut StringTable, trace: &Trace)
        requires
            old(table).wf(),
        ensures
            final(table)@ == cache_spans(old(table)@, trace@.spans),
            final(table).wf(),
    {
        let mut i: usize = 0;
        while i < trace.spans.len()
            invariant
                table.wf(),
                i <= trace@.spans.len(),
                table@ == cache_spans(old(table)@, trace@.spans.take(i as int)),
            decreases trace@.spans.len() - i,
        {
            proof {
                assert(trace@.spans[i as int] == trace.spans@[i as int]@);
            }
            let ghost t0 = table@;
            let sp = &trace.spans[i];
            table.cache_string(&sp.service);
            table.cache_string(&sp.name);
            table.cache_string(&sp.resource);
            table.cache_string(&sp.span_type);
            let ghost t4 = table@;
            let mut j: usize = 0;
            while j < sp.meta.pairs.len()
                invariant
                    table.wf(),
                    j <= sp@.meta.len(),
                    table@ == cache_meta_entries(t4, sp@.meta.take(j as int)),
                decreases sp@.meta.len() - j,
            {
                proof {
                    assert(sp@.meta[j as int].0 == sp.meta.pairs@[j as int].0@);
                    assert(sp@.meta[j as int].1 == sp.meta.pairs@[j as int].1@);
                }
                table.cache_string(&sp.meta.pairs[j].0);
                table.cache_string(&sp.meta.pairs[j].1);
                proof {
                    assert(sp@.meta.take(j + 1).drop_last() =~= sp@.meta.take(j as int));
                    assert(sp@.meta.take(j + 1).last() == sp@.meta[j as int]);
                }
                j = j + 1;
            }
            proof {
                assert(sp@.meta.take(sp@.meta.len() as int) =~= sp@.meta);
            }
            let ghost t5 = table@;
            let mut k: usize = 0;
            while k < sp.metrics.pairs.len()
                invariant
                    table.wf(),
                    k <= sp@.metrics.len(),
                    table@ == cache_metrics_entries(t5, sp@.metrics.take(k as int)),
                decreases sp@.metrics.len() - k,
            {
                proof {
                    assert(sp@.metrics[k as int].0 == sp.metrics.pairs@[k as int].0@);
                }
                table.cache_string(&sp.metrics.pairs[k].0);
                proof {
                    assert(sp@.metrics.take(k + 1).drop_last() =~= sp@.metrics.take(k as int));
                    assert(sp@.metrics.take(k + 1).last() == sp@.metrics[k as int]);
                }
                k = k + 1;
            }
            proof {
                assert(sp@.metrics.take(sp@.metrics.len() as int) =~= sp@.metrics);
                assert(table@ == cache_span(t0, trace@.spans[i as int]));
                assert(trace@.spans.take(i + 1).drop_last() =~= trace@.spans.take(i as int));
                assert(trace@.spans.take(i + 1).last() == trace@.spans[i as int]);
            }
            i = i + 1;
        }
        proof {
            assert(trace@.spans.take(trace@.spans.len() as int) =~= trace@.spans);
        }
    }

    /// Append the string table as an array of strings.
    #[verifier::loop_isolation(false)]
    pub fn encode_strings(&self, wr: &mut Vec<u8>, table: &StringTable)
        requires
            table@.len() <= u32::MAX,
            tbl_fits(table@),
        ensures
            final(wr)@ == old(wr)@ + enc_strings_v05(table@),
    {
        write_array_len(wr, table.strings.len() as u32);
        let ghost base = wr@;
        let mut i: usize = 0;
        while i < table.strings.len()
            invariant
                i <= table@.len(),
                wr@ == base + enc_table_entries_v05(table@.take(i as int)),
            decreases table@.len() - i,
        {
            proof {
                assert(table@[i as int] == table.strings@[i as int]@);
            }
            let ghost w0 = wr@;
            write_str(wr, table.strings[i].as_str());
            proof {
                lemma_concat_step(
                    w0,
                    base,
                    enc_table_entries_v05(table@.take(i as int)),
                    enc_str(table@[i as int]),
                );
                assert(table@.take(i + 1).drop_last() =~= table@.take(i as int));
                assert(table@.take(i + 1).last() == table@[i as int]);
                assert(enc_table_entries_v05(table@.take(i + 1)) == enc_table_entries_v05(
                    table@.take(i as int),
                ) + enc_str(table@[i as int]));
            }
            i = i + 1;
        }
        proof {
            assert(table@.take(table@.len() as int) =~= table@);
            lemma_concat_step(
                base,
                old(wr)@,
                enc_array_len(table@.len() as u32),
                enc_table_entries_v05(table@),
            );
        }
    }

    /// Append the map of string-valued tags as index pairs.
    #[verifier::loop_isolation(false)]
    pub fn encode_meta(&self, wr: &mut Vec<u8>, map: &Meta, table: &StringTable)
        requires
            table.wf(),
            map@.len() <= u32::MAX,
            forall|i: int|
                0 <= i < map@.len() ==> table@.contains((#[trigger] map@[i]).0)
                    && table@.contains(map@[i].1),
        ensures
            final(wr)@ == old(wr)@ + enc_map_len(map@.len() as u32) + enc_meta_entries_v05(
                map@,
                table@,
            ),
    {
        write_map_len(wr, map.len() as u32);
        let ghost base = wr@;
        let mut i: usize = 0;
        while i < map.pairs.len()
            invariant
                i <= map@.len(),
                wr@ == base + enc_meta_entries_v05(map@.take(i as int), table@),
            decreases map@.len() - i,
        {
            proof {
                assert(map@[i as int].0 == map.pairs@[i as int].0@);
                assert(map@[i as int].1 == map.pairs@[i as int].1@);
            }
            let ghost w0 = wr@;
            let ki = table.position_of(&map.pairs[i].0);
            write_uint(wr, ki as u64);
            proof {
                lemma_concat_step(
                    w0,
                    base,
                    enc_meta_entries_v05(map@.take(i as int), table@),
                    enc_uint(tbl_pos(table@, map@[i as int].0) as u64),
                );
            }
            let ghost w1 = wr@;
            let vi = table.position_of(&map.pairs[i].1);
            write_uint(wr, vi as u64);
            proof {
                lemma_concat_step(
                    w1,
                    base,
                    enc_meta_entries_v05(map@.take(i as int), table@) + enc_uint(
                        tbl_pos(table@, map@[i as int].0) as u64,
                    ),
                    enc_uint(tbl_pos(table@, map@[i as int].1) as u64),
                );
                assert(map@.take(i + 1).drop_last() =~= map@.take(i as int));
                assert(map@.take(i + 1).last() == map@[i as int]);
                assert(enc_meta_entries_v05(map@.take(i + 1), table@) == enc_meta_entries_v05(
                    map@.take(i as int),
                    table@,
                ) + enc_uint(tbl_pos(table@, map@[i as int].0) as u64) + enc_uint(
                    tbl_pos(table@, map@[i as int].1) as u64,
                ));
            }
            i = i + 1;
        }
        proof {
            assert(map@.take(map@.len() as int) =~= map@);
            lemma_concat_step(
                base,
                old(wr)@,
                enc_map_len(map@.len() as u32),
                enc_meta_entries_v05(map@, table@),
            );
        }
    }

    /// Append the map of numeric tags as index/float pairs.
    #[verifier::loop_isolation(false)]
    pub fn encode_metrics(&self, wr: &mut Vec<u8>, map: &Metrics, table: &StringTable)
        requires
            table.wf(),
            map@.len() <= u32::MAX,
            forall|i: int| 0 <= i < map@.len() ==> table@.contains((#[trigger] map@[i]).0),
        ensures
            final(wr)@ == old(wr)@ + enc_map_len(map@.len() as u32) + enc_metrics_entries_v05(
                map@,
                table@,
            ),
    {
        write_map_len(wr, map.len() as u32);
        let ghost base = wr@;
        let mut i: usize = 0;
        while i < map.pairs.len()
            invariant
                i <= map@.len(),
                wr@ == base + enc_metrics_entries_v05(map@.take(i as int), table@),
            decreases map@.len() - i,
        {
            proof {
                assert(map@[i as int].0 == map.pairs@[i as int].0@);
                assert(map@[i as int].1 == map.pairs@[i as int].1);
            }
            let ghost w0 = wr@;
            let ki = table.position_of(&map.pairs[i].0);
            write_uint(wr, ki as u64);
            proof {
                lemma_concat_step(
                    w0,
                    base,
                    enc_metrics_entries_v05(map@.take(i as int), table@),
                    enc_uint(tbl_pos(table@, map@[i as int].0) as u64),
                );
            }
            let ghost w1 = wr@;
            write_f64_bits(wr, map.pairs[i].1);
            proof {
                lemma_concat_step(
                    w1,
                    base,
                    enc_metrics_entries_v05(map@.take(i as int), table@) + enc_uint(
                        tbl_pos(table@, map@[i as int].0) as u64,
                    ),
                    enc_f64_bits(map@[i as int].1),
                );
                assert(map@.take(i + 1).drop_last() =~= map@.take(i as int));
                assert(map@.take(i + 1).last() == map@[i as int]);
                assert(enc_metrics_entries_v05(map@.take(i + 1), table@)
                    == enc_metrics_entries_v05(map@.take(i as int), table@) + enc_uint(
                    tbl_pos(table@, map@[i as int].0) as u64,
                ) + enc_f64_bits(map@[i as int].1));
            }
            i = i + 1;
        }
        proof {
            assert(map@.take(map@.len() as int) =~= map@);
            lemma_concat_step(
                base,
                old(wr)@,
                enc_map_len(map@.len() as u32),
                enc_metrics_entries_v05(map@, table@),
            );
        }
    }

    /// Append one span as a twelve-element array of indices and integers.
    pub fn encode_span(&self, wr: &mut Vec<u8>, span: &Span, table: &StringTable)
        requires
            table.wf(),
            span_in_table(span@, table@),
            span_encodable(span@),
        ensures
            final(wr)@ == old(wr)@ + enc_span_v05(span@, table@),
    {
        let ghost s = span@;
        let ghost tbl = table@;
        write_array_len(wr, 12);
        let ghost mut acc: Seq<u8> = enc_array_len(12);
        proof {
            assert(wr@ =~= old(wr)@ + acc);
        }
        let ghost w1 = wr@;
        let p_service = table.position_of(&span.service);
        write_uint(wr, p_service as u64);
        proof {
            lemma_concat_step(w1, old(wr)@, acc, enc_uint(tbl_pos(tbl, s.service) as u64));
            acc = acc + enc_uint(tbl_pos(tbl, s.service) as u64);
        }
        let ghost w2 = wr@;
        let p_name = table.position_of(&span.name);
        write_uint(wr, p_name as u64);
        proof {
            lemma_concat_step(w2, old(wr)@, acc, enc_uint(tbl_pos(tbl, s.name) as u64));
            acc = acc + enc_uint(tbl_pos(tbl, s.name) as u64);
        }
        let ghost w3 = wr@;
        let p_resource = table.position_of(&span.resource);
        write_uint(wr, p_resource as u64);
        proof {
            lemma_concat_step(w3, old(wr)@, acc, enc_uint(tbl_pos(tbl, s.resource) as u64));
            acc = acc + enc_uint(tbl_pos(tbl, s.resource) as u64);
        }
        let ghost w4 = wr@;
        write_uint(wr, span.trace_id);
        proof {
            lemma_concat_step(w4, old(wr)@, acc, enc_uint(s.trace_id));
            acc = acc + enc_uint(s.trace_id);
        }
        let ghost w5 = wr@;
        write_uint(wr, span.span_id);
        proof {
            lemma_concat_step(w5, old(wr)@, acc, enc_uint(s.span_id));
            acc = acc + enc_uint(s.span_id);
        }
        let ghost w6 = wr@;
        write_uint(wr, span.parent_id);
        proof {
            lemma_concat_step(w6, old(wr)@, acc, enc_uint(s.parent_id));
            acc = acc + enc_uint(s.parent_id);
        }
        let ghost w7 = wr@;
        write_uint(wr, span.start);
        proof {
            lemma_concat_step(w7, old(wr)@, acc, enc_uint(s.start));
            acc = acc + enc_uint(s.start);
        }
        let d: u64 = if span.duration < u64::MAX {
            span.duration + 1
        } else {
            span.duration
        };
        let ghost w8 = wr@;
        write_uint(wr, d);
        proof {
            lemma_concat_step(w8, old(wr)@, acc, enc_uint(wire_duration(s.duration)));
            acc = acc + enc_uint(wire_duration(s.duration));
        }
        let ghost w9 = wr@;
        write_uint(wr, span.error);
        proof {
            lemma_concat_step(w9, old(wr)@, acc, enc_uint(s.error));
            acc = acc + enc_uint(s.error);
        }
        let ghost w10 = wr@;
        self.encode_meta(wr, &span.meta, table);
        proof {
            lemma_concat_step(w10, old(wr)@, acc, enc_map_len(s.meta.len() as u32));
            lemma_concat_step(
                w10 + enc_map_len(s.meta.len() as u32),
                old(wr)@,
                acc + enc_map_len(s.meta.len() as u32),
                enc_meta_entries_v05(s.meta, tbl),
            );
            acc = acc + enc_map_len(s.meta.len() as u32) + enc_meta_entries_v05(s.meta, tbl);
        }
        let ghost w11 = wr@;
        self.encode_metrics(wr, &span.metrics, table);
        proof {
            lemma_concat_step(w11, old(wr)@, acc, enc_map_len(s.metrics.len() as u32));
            lemma_concat_step(
                w11 + enc_map_len(s.metrics.len() as u32),
                old(wr)@,
                acc + enc_map_len(s.metrics.len() as u32),
                enc_metrics_entries_v05(s.metrics, tbl),
            );
            acc = acc + enc_map_len(s.metrics.len() as u32) + enc_metrics_entries_v05(
                s.metrics,
                tbl,
            );
        }
        let ghost w12 = wr@;
        let p_type = table.position_of(&span.span_type);
        write_uint(wr, p_type as u64);
        proof {
            lemma_concat_step(w12, old(wr)@, acc, enc_uint(tbl_pos(tbl, s.span_type) as u64));
            acc = acc + enc_uint(tbl_pos(tbl, s.span_type) as u64);
            assert(acc == enc_span_v05(s, tbl));
        }
    }

    /// Append one trace as an array of its spans.
    #[verifier::loop_isolation(false)]
    pub fn encode_trace(&self, wr: &mut Vec<u8>, trace: &Trace, table: &StringTable)
        requires
            table.wf(),
            trace_encodable(trace@),
            forall|i: int|
                0 <= i < trace@.spans.len() ==> span_in_table(#[trigger] trace@.spans[i], table@),
        ensures
            final(wr)@ == old(wr)@ + enc_trace_v05(trace@, table@),
    {
        write_array_len(wr, trace.spans.len() as u32);
        let ghost base = wr@;
        let mut i: usize = 0;
        while i < trace.spans.len()
            invariant
                i <= trace@.spans.len(),
                wr@ == base + enc_spans_v05(trace@.spans.take(i as int), table@),
            decreases trace@.spans.len() - i,
        {
            proof {
                assert(trace@.spans[i as int] == trace.spans@[i as int]@);
            }
            let ghost w0 = wr@;
            self.encode_span(wr, &trace.spans[i], table);
            proof {
                lemma_concat_step(
                    w0,
                    base,
                    enc_spans_v05(trace@.spans.take(i as int), table@),
                    enc_span_v05(trace@.spans[i as int], table@),
                );
                assert(trace@.spans.take(i + 1).drop_last() =~= trace@.spans.take(i as int));
                assert(trace@.spans.take(i + 1).last() == trace@.spans[i as int]);
                assert(enc_spans_v05(trace@.spans.take(i + 1), table@) == enc_spans_v05(
                    trace@.spans.take(i as int),
                    table@,
                ) + enc_span_v05(trace@.spans[i as int], table@));
            }
            i = i + 1;
        }
        proof {
            assert(trace@.spans.take(trace@.spans.len() as int) =~= trace@.spans);
            lemma_concat_step(
                base,
                old(wr)@,
                enc_array_len(trace@.spans.len() as u32),
                enc_spans_v05(trace@.spans, table@),
            );
        }
    }

    /// Append a whole batch: the two-element array holding the string table
    /// and the traces. Fails when the table outgrows the 32-bit array
    /// header, leaving the buffer untouched.
    #[verifier::loop_isolation(false)]
    pub fn encode_traces(&self, wr: &mut Vec<u8>, traces: &Traces) -> (r: Result<(), Error>)
        requires
            traces_encodable(traces@),
        ensures
            match r {
                Ok(()) => spec_table_v05(traces@).len() <= u32::MAX && final(wr)@ == old(wr)@
                    + enc_traces_v05(traces@),
                Err(e) => spec_table_v05(traces@).len() > u32::MAX && e == Error::MalformedInput
                    && final(wr)@ == old(wr)@,
            },
    {
        let mut table = StringTable::new();
        let ghost seed = seq![Seq::<char>::empty()];
        let mut i: usize = 0;
        while i < traces.pairs.len()
            invariant
                table.wf(),
                i <= traces@.len(),
                table@ == cache_traces(seed, traces@.take(i as int)),
            decreases traces@.len() - i,
        {
            proof {
                assert(traces@[i as int].1 == traces.pairs@[i as int].1@);
            }
            self.cache_strings(&mut table, &traces.pairs[i].1);
            proof {
                assert(traces@.take(i + 1).drop_last() =~= traces@.take(i as int));
                assert(traces@.take(i + 1).last() == traces@[i as int]);
            }
            i = i + 1;
        }
        proof {
            assert(traces@.take(traces@.len() as int) =~= traces@);
            assert(table@ == spec_table_v05(traces@));
            lemma_table_v05_props(traces@);
        }
        if (table.len() as u64) > 0xffff_ffffu64 {
            return Err(Error::MalformedInput);
        }
        write_array_len(wr, 2);
        let ghost mut acc: Seq<u8> = enc_array_len(2);
        proof {
            assert(wr@ =~= old(wr)@ + acc);
        }
        let ghost w1 = wr@;
        self.encode_strings(wr, &table);
        proof {
            lemma_concat_step(w1, old(wr)@, acc, enc_strings_v05(table@));
            acc = acc + enc_strings_v05(table@);
        }
        let ghost w2 = wr@;
        write_array_len(wr, traces.pairs.len() as u32);
        proof {
            lemma_concat_step(w2, old(wr)@, acc, enc_array_len(traces@.len() as u32));
            acc = acc + enc_array_len(traces@.len() as u32);
        }
        let ghost base = wr@;
        let mut k: usize = 0;
        while k < traces.pairs.len()
            invariant
                k <= traces@.len(),
                wr@ == base + enc_traces_entries_v05(traces@.take(k as int), table@),
            decreases traces@.len() - k,
        {
            proof {
                assert(traces@[k as int].1 == traces.pairs@[k as int].1@);
                assert forall|i2: int|
                    0 <= i2 < traces@[k as int].1.spans.len() implies span_in_table(
                    #[trigger] traces@[k as int].1.spans[i2],
                    table@,
                ) by {
                    assert(span_in_table(traces@[k as int].1.spans[i2], spec_table_v05(traces@)));
                }
            }
            let ghost w0 = wr@;
            self.encode_trace(wr, &traces.pairs[k].1, &table);
            proof {
                lemma_concat_step(
                    w0,
                    base,
                    enc_traces_entries_v05(traces@.take(k as int), table@),
                    enc_trace_v05(traces@[k as int].1, table@),
                );
                assert(traces@.take(k + 1).drop_last() =~= traces@.take(k as int));
                assert(traces@.take(k + 1).last() == traces@[k as int]);
                assert(enc_traces_entries_v05(traces@.take(k + 1), table@)
                    == enc_traces_entries_v05(traces@.take(k as int), table@) + enc_trace_v05(
                    traces@[k as int].1,
                    table@,
                ));
            }
            k = k + 1;
        }
        proof {
            assert(traces@.take(traces@.len() as int) =~= traces@);
            lemma_concat_step(base, old(wr)@, acc, enc_traces_entries_v05(traces@, table@));
        }
        Ok(())
    }

    /// Encode a batch for the downstream agent. An empty batch
    /// short-circuits to nothing; a batch beyond the 32-bit wire limits is
    /// refused as malformed.
    pub fn export(&self, traces: &Traces) -> (r: Result<Option<Vec<u8>>, Error>)
        ensures
            traces@.len() == 0 ==> r == Ok::<Option<Vec<u8>>, Error>(None),
            traces@.len() > 0 && traces_encodable(traces@) && spec_table_v05(traces@).len()
                <= u32::MAX ==> (r matches Ok(Some(b)) && b@ == enc_traces_v05(traces@)),
            traces@.len() > 0 && !(traces_encodable(traces@) && spec_table_v05(traces@).len()
                <= u32::MAX) ==> r == Err::<Option<Vec<u8>>, Error>(Error::MalformedInput),
    {
        if traces.len() == 0 {
            return Ok(None);
        }
        if !check_traces_encodable(traces) {
            return Err(Error::MalformedInput);
        }
        let mut wr: Vec<u8> = Vec::new();
        match self.encode_traces(&mut wr, traces) {
            Ok(()) => {
                proof {
                    assert(wr@ =~= enc_traces_v05(traces@));
                }
                Ok(Some(wr))
            },
            Err(e) => Err(e),
        }
    }
}

} // verus!
