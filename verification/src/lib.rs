use vstd::prelude::*;

pub mod distribution;
pub mod escape;
pub mod kv;
pub mod render;
pub mod text;
pub mod time;

verus! {

use vstd::string::StringExecFns;
use crate::kv::TagMap;

/// A floating-point sample as the encoder sees it: the IEEE-754 bit pattern
/// (which fixes its place in the sort order) and its rendered decimal text
/// (the shortest round-trip form that the number formats to). The encoder
/// itself never performs floating-point arithmetic; callers supply both parts
/// from the actual number.
pub struct FloatVal {
    pub bits: u64,
    pub text: String,
}

impl Clone for FloatVal {
    fn clone(&self) -> (r: Self)
        ensures
            r == *self,
    {
        let r = FloatVal { bits: self.bits, text: self.text.clone() };
        proof {
            assert(r == *self);
        }
        r
    }
}

/// A typed field value destined for line-protocol output. A `Float` carries
/// the number's rendered decimal text; an `UnsignedInt` is rendered as its
/// digits followed by the `i` marker.
pub enum Field {
    String(String),
    Float(String),
    UnsignedInt(u32),
}

impl Clone for Field {
    fn clone(&self) -> (r: Self)
        ensures
            r == *self,
    {
        match self {
            Field::String(s) => Field::String(s.clone()),
            Field::Float(t) => Field::Float(t.clone()),
            Field::UnsignedInt(u) => Field::UnsignedInt(*u),
        }
    }
}

/// Whether a metric reports a change or a level. The encoder does not read it.
pub enum MetricKind {
    Incremental,
    Absolute,
}

/// The kind-specific payload of a metric sample.
///
/// For `Distribution`, `values` and `sample_rates` are index-aligned:
/// `sample_rates[i]` is the repetition weight of `values[i]`. The `sum` and
/// `avg` parts are the floating-point sum of the expanded samples (added in
/// ascending order) and that sum divided by the sample count; the caller
/// computes them (see `distribution::expand_sorted`), since they are the one
/// part of the summary that takes float arithmetic. They are ignored whenever
/// the distribution is empty or malformed.
#[allow(inconsistent_fields)]
pub enum MetricValue {
    Counter { value: FloatVal },
    Gauge { value: FloatVal },
    ValueSet { values: Vec<String> },
    AggregatedHistogram { buckets: Vec<FloatVal>, counts: Vec<u32>, count: u32, sum: FloatVal },
    AggregatedSummary { quantiles: Vec<FloatVal>, values: Vec<FloatVal>, count: u32, sum: FloatVal },
    Distribution { values: Vec<FloatVal>, sample_rates: Vec<u32>, sum: FloatVal, avg: FloatVal },
}

/// One metric sample. A missing timestamp is filled with the current wall
/// clock at encoding time; `timestamp` is in nanoseconds since the Unix epoch
/// (see `time::encode_timestamp`).
pub struct Metric {
    pub name: String,
    pub timestamp: Option<i64>,
    pub tags: Option<TagMap>,
    pub kind: MetricKind,
    pub value: MetricValue,
}

/// The `metric_type` tag value of each payload kind.
pub open spec fn spec_metric_type(v: MetricValue) -> Seq<char> {
    match v {
        MetricValue::Counter { .. } => "counter"@,
        MetricValue::Gauge { .. } => "gauge"@,
        MetricValue::ValueSet { .. } => "set"@,
        MetricValue::AggregatedHistogram { .. } => "histogram"@,
        MetricValue::AggregatedSummary { .. } => "summary"@,
        MetricValue::Distribution { .. } => "distribution"@,
    }
}

/// The views of a sequence of strings.
pub open spec fn str_views(s: Seq<String>) -> Seq<Seq<char>> {
    s.map(|i: int, x: String| x@)
}

/// How many distinct values a sequence holds.
pub open spec fn spec_distinct_count(views: Seq<Seq<char>>) -> nat
    decreases views.len(),
{
    if views.len() == 0 {
        0
    } else if views.drop_last().contains(views.last()) {
        spec_distinct_count(views.drop_last())
    } else {
        spec_distinct_count(views.drop_last()) + 1
    }
}

/// The distinct count is the cardinality of the set of values: what the
/// `value` field of a set metric reports.
pub proof fn lemma_distinct_count_is_cardinality(views: Seq<Seq<char>>)
    ensures
        spec_distinct_count(views) == views.to_set().len(),
    decreases views.len(),
{
    broadcast use vstd::set::group_set_axioms, vstd::seq_lib::seq_to_set_is_finite;

    if views.len() == 0 {
        assert(views.to_set() =~= Set::<Seq<char>>::empty());
    } else {
        lemma_distinct_count_is_cardinality(views.drop_last());
        assert forall|x: Seq<char>| views.contains(x) implies views.drop_last().to_set().insert(
            views.last(),
        ).contains(x) by {
            let k = choose|k: int| 0 <= k < views.len() && views[k] == x;
            if k < views.len() - 1 {
                assert(views.drop_last()[k] == x);
                assert(views.drop_last().contains(x));
            } else {
                assert(views.last() == x);
            }
        }
        assert forall|x: Seq<char>|
            views.drop_last().to_set().insert(views.last()).contains(x) implies views.contains(
            x,
        ) by {
            if x == views.last() {
                assert(views[views.len() - 1] == x);
            } else {
                let k = choose|k: int|
                    0 <= k < views.drop_last().len() && views.drop_last()[k] == x;
                assert(views[k] == x);
            }
        }
        assert(views.drop_last().to_set().insert(views.last()) =~= views.to_set());
    }
}

/// Key/rendered-value pairs folded into a field set in order, each with
/// last-write-wins key semantics.
pub open spec fn spec_put_pairs(
    acc: Seq<(Seq<char>, Seq<char>)>,
    entries: Seq<(Seq<char>, Seq<char>)>,
) -> Seq<(Seq<char>, Seq<char>)>
    decreases entries.len(),
{
    if entries.len() == 0 {
        acc
    } else {
        spec_put_pairs(
            crate::kv::spec_kv_put(acc, entries[0].0, entries[0].1),
            entries.drop_first(),
        )
    }
}

/// The histogram bucket fields: one `bucket_<bound>` unsigned field per
/// zipped (bound, count) pair.
pub open spec fn spec_bucket_pairs(buckets: Seq<FloatVal>, counts: Seq<u32>) -> Seq<
    (Seq<char>, Seq<char>),
> {
    Seq::new(
        buckets.len(),
        |i: int|
            (
                "bucket_"@ + buckets[i].text@,
                crate::text::spec_digits(counts[i] as nat).push('i'),
            ),
    )
}

/// The summary quantile fields: one `quantile_<q>` float field per zipped
/// (quantile, value) pair.
pub open spec fn spec_quantile_pairs(quantiles: Seq<FloatVal>, values: Seq<FloatVal>) -> Seq<
    (Seq<char>, Seq<char>),
> {
    Seq::new(
        quantiles.len(),
        |i: int| ("quantile_"@ + quantiles[i].text@, values[i].text@),
    )
}

/// The projected fields of a payload, as key/rendered-value pairs in storage
/// order, or None when no line must be emitted. A histogram or summary whose
/// two zipped sequences differ in length is suppressed like a malformed
/// distribution.
pub open spec fn spec_metric_fields(v: MetricValue) -> Option<Seq<(Seq<char>, Seq<char>)>> {
    match v {
        MetricValue::Counter { value } => Some(seq![("value"@, value.text@)]),
        MetricValue::Gauge { value } => Some(seq![("value"@, value.text@)]),
        MetricValue::ValueSet { values } => Some(
            seq![("value"@, crate::text::spec_digits(spec_distinct_count(str_views(values@))))],
        ),
        MetricValue::AggregatedHistogram { buckets, counts, count, sum } => {
            if buckets@.len() != counts@.len() {
                None
            } else {
                Some(
                    crate::kv::spec_kv_put(
                        crate::kv::spec_kv_put(
                            spec_put_pairs(Seq::empty(), spec_bucket_pairs(buckets@, counts@)),
                            "count"@,
                            crate::text::spec_digits(count as nat).push('i'),
                        ),
                        "sum"@,
                        sum.text@,
                    ),
                )
            }
        },
        MetricValue::AggregatedSummary { quantiles, values, count, sum } => {
            if quantiles@.len() != values@.len() {
                None
            } else {
                Some(
                    crate::kv::spec_kv_put(
                        crate::kv::spec_kv_put(
                            spec_put_pairs(
                                Seq::empty(),
                                spec_quantile_pairs(quantiles@, values@),
                            ),
                            "count"@,
                            crate::text::spec_digits(count as nat).push('i'),
                        ),
                        "sum"@,
                        sum.text@,
                    ),
                )
            }
        },
        MetricValue::Distribution { values, sample_rates, sum, avg } => {
            crate::distribution::spec_distribution_fields(values@, sample_rates@, sum, avg)
        },
    }
}

/// The line-protocol text of one metric sample at a resolved timestamp: the
/// empty sequence when the sample is suppressed.
pub open spec fn spec_line_of(m: Metric, ns: Seq<char>, ts: i64) -> Seq<char> {
    match spec_metric_fields(m.value) {
        None => Seq::empty(),
        Some(fields) => crate::render::spec_influx_line(
            spec_namespaced(ns, m.name@),
            spec_metric_type(m.value),
            crate::render::opt_tag_pairs(m.tags),
            fields,
            ts,
        ),
    }
}

/// The encoded batch: one line per sample in input order, suppressed samples
/// skipped in place. `tss` holds the resolved timestamp of each sample.
pub open spec fn spec_encode_events(events: Seq<Metric>, ns: Seq<char>, tss: Seq<i64>) -> Seq<
    Seq<char>,
> {
    Seq::new(events.len(), |i: int| spec_line_of(events[i], ns, tss[i])).filter(
        |l: Seq<char>| l.len() > 0,
    )
}

/// The measurement name for a metric: `namespace.name`, or the bare name
/// when the namespace is empty.
pub open spec fn spec_namespaced(ns: Seq<char>, name: Seq<char>) -> Seq<char> {
    if ns.len() > 0 {
        ns + seq!['.'] + name
    } else {
        name
    }
}

/// Prefixes a metric name with the namespace, joined by a dot; an empty
/// namespace leaves the name unchanged.
pub fn encode_namespace(namespace: &str, name: &str) -> (r: String)
    ensures
        r@ == spec_namespaced(namespace@, name@),
{
    if !namespace.is_empty() {
        let mut s = String::from_str(namespace);
        crate::text::push_char(&mut s, '.');
        s.append(name);
        proof {
            assert(namespace@.push('.') =~= namespace@ + seq!['.']);
        }
        s
    } else {
        String::from_str(name)
    }
}

fn simple_value_fields(value: FloatVal) -> (r: kv::FieldMap)
    ensures
        r@ == seq![("value"@, value.text@)],
{
    let mut fm = kv::FieldMap::new();
    fm.insert(String::from_str("value"), Field::Float(value.text));
    proof {
        assert(fm@ =~= seq![("value"@, value.text@)]);
    }
    fm
}

fn set_fields(values: &Vec<String>) -> (r: kv::FieldMap)
    ensures
        r@ == seq![("value"@, text::spec_digits(spec_distinct_count(str_views(values@))))],
{
    let mut distinct: usize = 0;
    let mut i: usize = 0;
    proof {
        assert(str_views(values@).take(0) =~= Seq::<Seq<char>>::empty());
    }
    while i < values.len()
        invariant
            i <= values@.len(),
            distinct <= i,
            distinct == spec_distinct_count(str_views(values@).take(i as int)),
        decreases values@.len() - i,
    {
        let mut seen = false;
        let mut j: usize = 0;
        while j < i
            invariant
                j <= i,
                i < values@.len(),
                seen == exists|k: int| 0 <= k < j && values@[k]@ == values@[i as int]@,
            decreases i - j,
        {
            if values[j] == values[i] {
                seen = true;
            }
            j = j + 1;
        }
        proof {
            let views = str_views(values@);
            assert(forall|k: int| 0 <= k < i ==> views.take(i as int)[k] == values@[k]@);
            if seen {
                let k = choose|k: int| 0 <= k < i && values@[k]@ == values@[i as int]@;
                assert(views.take(i as int)[k] == values@[i as int]@);
                assert(views.take(i as int).contains(values@[i as int]@));
            } else {
                if views.take(i as int).contains(values@[i as int]@) {
                    let iv = values@[i as int]@;
                    let k = choose|k: int|
                        0 <= k < views.take(i as int).len() && views.take(i as int)[k] == iv;
                    assert(values@[k]@ == values@[i as int]@);
                    assert(false);
                }
            }
            assert(views.take(i as int + 1).drop_last() =~= views.take(i as int));
            assert(views.take(i as int + 1).last() == values@[i as int]@);
        }
        if !seen {
            distinct = distinct + 1;
        }
        i = i + 1;
    }
    proof {
        assert(str_views(values@).take(values@.len() as int) =~= str_views(values@));
    }
    let mut fm = kv::FieldMap::new();
    fm.insert(String::from_str("value"), Field::Float(text::u64_to_text(distinct as u64)));
    proof {
        assert(fm@ =~= seq![
            ("value"@, text::spec_digits(spec_distinct_count(str_views(values@)))),
        ]);
    }
    fm
}

fn zipped_fields(pairs: Vec<(String, Field)>) -> (r: kv::FieldMap)
    ensures
        r@ == spec_put_pairs(Seq::empty(), kv::field_views(pairs@)),
{
    let ghost allpairs = kv::field_views(pairs@);
    let mut fm = kv::FieldMap::new();
    let mut rest = pairs;
    proof {
        assert(kv::field_views(rest@).skip(0) =~= allpairs);
        assert(fm@ =~= Seq::<(Seq<char>, Seq<char>)>::empty());
    }
    while rest.len() > 0
        invariant
            spec_put_pairs(fm@, kv::field_views(rest@)) == spec_put_pairs(Seq::empty(), allpairs),
        decreases rest@.len(),
    {
        let ghost rv = kv::field_views(rest@);
        let (k, f) = rest.remove(0);
        proof {
            assert(rv[0] == (k@, kv::spec_render_field_value(f)));
            assert(kv::field_views(rest@) =~= rv.drop_first());
        }
        fm.insert(k, f);
    }
    proof {
        assert(kv::field_views(rest@).len() == 0);
    }
    fm
}

fn histogram_fields(
    buckets: Vec<FloatVal>,
    counts: Vec<u32>,
    count: u32,
    sum: FloatVal,
) -> (r: Option<kv::FieldMap>)
    requires
        buckets@.len() == counts@.len(),
    ensures
        r is Some,
        r->0@ == spec_metric_fields(
            MetricValue::AggregatedHistogram { buckets, counts, count, sum },
        )->0,
{
    let mut pairs: Vec<(String, Field)> = Vec::new();
    let mut i: usize = 0;
    while i < buckets.len()
        invariant
            i <= buckets@.len(),
            buckets@.len() == counts@.len(),
            pairs@.len() == i,
            kv::field_views(pairs@) == spec_bucket_pairs(buckets@, counts@).take(i as int),
        decreases buckets@.len() - i,
    {
        let mut key = String::from_str("bucket_");
        key.append(buckets[i].text.as_str());
        pairs.push((key, Field::UnsignedInt(counts[i])));
        proof {
            assert(pairs@.len() == i + 1);
            assert(pairs@[i as int].0@ == "bucket_"@ + buckets@[i as int].text@);
            assert(kv::spec_render_field_value(pairs@[i as int].1) == crate::text::spec_digits(
                counts@[i as int] as nat,
            ).push('i'));
            assert(kv::field_views(pairs@)[i as int] == spec_bucket_pairs(buckets@, counts@)[
                i as int]);
            assert(kv::field_views(pairs@) =~= spec_bucket_pairs(buckets@, counts@).take(
                i as int + 1,
            ));
        }
        i = i + 1;
    }
    proof {
        assert(spec_bucket_pairs(buckets@, counts@).take(buckets@.len() as int)
            =~= spec_bucket_pairs(buckets@, counts@));
    }
    let mut fm = zipped_fields(pairs);
    fm.insert(String::from_str("count"), Field::UnsignedInt(count));
    fm.insert(String::from_str("sum"), Field::Float(sum.text.clone()));
    Some(fm)
}

fn summary_fields(
    quantiles: Vec<FloatVal>,
    values: Vec<FloatVal>,
    count: u32,
    sum: FloatVal,
) -> (r: Option<kv::FieldMap>)
    requires
        quantiles@.len() == values@.len(),
    ensures
        r is Some,
        r->0@ == spec_metric_fields(
            MetricValue::AggregatedSummary { quantiles, values, count, sum },
        )->0,
{
    let mut pairs: Vec<(String, Field)> = Vec::new();
    let mut i: usize = 0;
    while i < quantiles.len()
        invariant
            i <= quantiles@.len(),
            quantiles@.len() == values@.len(),
            pairs@.len() == i,
            kv::field_views(pairs@) == spec_quantile_pairs(quantiles@, values@).take(i as int),
        decreases quantiles@.len() - i,
    {
        let mut key = String::from_str("quantile_");
        key.append(quantiles[i].text.as_str());
        pairs.push((key, Field::Float(values[i].text.clone())));
        proof {
            assert(pairs@.len() == i + 1);
            assert(pairs@[i as int].0@ == "quantile_"@ + quantiles@[i as int].text@);
            assert(kv::spec_render_field_value(pairs@[i as int].1) == values@[i as int].text@);
            assert(kv::field_views(pairs@)[i as int] == spec_quantile_pairs(quantiles@, values@)[
                i as int]);
            assert(kv::field_views(pairs@) =~= spec_quantile_pairs(quantiles@, values@).take(
                i as int + 1,
            ));
        }
        i = i + 1;
    }
    proof {
        assert(spec_quantile_pairs(quantiles@, values@).take(quantiles@.len() as int)
            =~= spec_quantile_pairs(quantiles@, values@));
    }
    let mut fm = zipped_fields(pairs);
    fm.insert(String::from_str("count"), Field::UnsignedInt(count));
    fm.insert(String::from_str("sum"), Field::Float(sum.text.clone()));
    Some(fm)
}

/// Encodes a batch of metric samples into line-protocol text, one line per
/// sample that is not suppressed, in input order. Each sample's timestamp is
/// its own when present, else the current wall clock; everything besides
/// that clock reading is fixed by the input, as the postcondition states.
pub fn encode_events(events: Vec<Metric>, namespace: &str) -> (lines: Vec<String>)
    ensures
        exists|tss: Seq<i64>|
            tss.len() == events@.len() && (forall|i: int|
                0 <= i < events@.len() && events@[i].timestamp is Some ==> tss[i]
                    == events@[i].timestamp->0) && lines.deep_view() == spec_encode_events(
                events@,
                namespace@,
                tss,
            ),
{
    let ghost all = events@;
    let total: usize = events.len();
    let ghost mut tss: Seq<i64> = Seq::empty();
    let mut lines: Vec<String> = Vec::new();
    let mut rest = events;
    let mut i: usize = 0;
    proof {
        assert(all.take(0) =~= Seq::<Metric>::empty());
        assert(Seq::new(0, |k: int| spec_line_of(all.take(0)[k], namespace@, tss[k])) =~= Seq::<
            Seq<char>,
        >::empty());
        reveal(Seq::filter);
        assert(lines.deep_view() =~= spec_encode_events(all.take(0), namespace@, tss));
    }
    while rest.len() > 0
        invariant
            i <= total,
            total == all.len(),
            i + rest@.len() == all.len(),
            rest@ == all.skip(i as int),
            tss.len() == i,
            forall|k: int|
                0 <= k < i && all[k].timestamp is Some ==> tss[k] == all[k].timestamp->0,
            lines.deep_view() == spec_encode_events(all.take(i as int), namespace@, tss),
        decreases rest@.len(),
    {
        let ev = rest.remove(0);
        proof {
            assert(all.skip(i as int)[0] == all[i as int]);
            assert(all.skip(i as int).drop_first() =~= all.skip(i as int + 1));
        }
        let ghost evg = ev;
        let Metric { name, timestamp, tags, kind, value } = ev;
        let ts: i64 = time::encode_timestamp(timestamp);
        let ghost tss_old = tss;
        proof {
            tss = tss.push(ts);
        }
        let fullname = encode_namespace(namespace, name.as_str());
        let ghost valueg = value;
        let (mtype, fields_opt): (&str, Option<kv::FieldMap>) = match value {
            MetricValue::Counter { value } => ("counter", Some(simple_value_fields(value))),
            MetricValue::Gauge { value } => ("gauge", Some(simple_value_fields(value))),
            MetricValue::ValueSet { values } => ("set", Some(set_fields(&values))),
            MetricValue::AggregatedHistogram { buckets, counts, count, sum } => {
                if buckets.len() != counts.len() {
                    ("histogram", None)
                } else {
                    ("histogram", histogram_fields(buckets, counts, count, sum))
                }
            },
            MetricValue::AggregatedSummary { quantiles, values, count, sum } => {
                if quantiles.len() != values.len() {
                    ("summary", None)
                } else {
                    ("summary", summary_fields(quantiles, values, count, sum))
                }
            },
            MetricValue::Distribution { values, sample_rates, sum, avg } => {
                (
                    "distribution",
                    distribution::encode_distribution(&values, &sample_rates, &sum, &avg),
                )
            },
        };
        proof {
            assert(mtype@ == spec_metric_type(valueg));
            match spec_metric_fields(valueg) {
                None => {
                    assert(fields_opt is None);
                },
                Some(fs) => {
                    assert(fields_opt is Some && fields_opt->0@ == fs);
                },
            }
        }
        let line = render::influx_line_protocol(fullname, mtype, tags, fields_opt, ts);
        proof {
            if spec_metric_fields(valueg) is None {
                assert(crate::render::spec_sort_pairs(Seq::<(Seq<char>, Seq<char>)>::empty())
                    == Seq::<(Seq<char>, Seq<char>)>::empty());
                assert(crate::render::spec_sort_pairs(Seq::<(Seq<char>, Seq<char>)>::empty()).map(
                    |k: int, p: (Seq<char>, Seq<char>)| crate::render::spec_pair_text(p.0, p.1),
                ) =~= Seq::<Seq<char>>::empty());
                assert(crate::render::spec_encode_fields(Seq::<(Seq<char>, Seq<char>)>::empty())
                    == Seq::<char>::empty());
                assert(line@ == Seq::<char>::empty());
            }
            assert(line@ == spec_line_of(evg, namespace@, ts));
        }
        if !line.as_str().is_empty() {
            lines.push(line);
        }
        proof {
            let prev = Seq::new(
                all.take(i as int).len(),
                |k: int| spec_line_of(all.take(i as int)[k], namespace@, tss_old[k]),
            );
            let cur = Seq::new(
                all.take(i as int + 1).len(),
                |k: int| spec_line_of(all.take(i as int + 1)[k], namespace@, tss[k]),
            );
            assert(cur.drop_last() =~= prev);
            assert(cur.last() == spec_line_of(evg, namespace@, ts));
            reveal(Seq::filter);
            assert(cur.filter(|l: Seq<char>| l.len() > 0) == (if cur.last().len() > 0 {
                prev.filter(|l: Seq<char>| l.len() > 0).push(cur.last())
            } else {
                prev.filter(|l: Seq<char>| l.len() > 0)
            }));
            assert(lines.deep_view() =~= spec_encode_events(
                all.take(i as int + 1),
                namespace@,
                tss,
            ));
        }
        i = i + 1;
    }
    proof {
        assert(all.take(all.len() as int) =~= all);
        assert(tss.len() == all.len() && (forall|k: int|
            0 <= k < all.len() && all[k].timestamp is Some ==> tss[k] == all[k].timestamp->0)
            && lines.deep_view() == spec_encode_events(all, namespace@, tss));
    }
    lines
}

/// With every timestamp supplied, the output is a function of the input
/// alone: any two resolved-timestamp sequences the postcondition of
/// `encode_events` admits are the given ones, so two encodings of the same
/// batch are byte-identical.
pub proof fn lemma_encode_events_deterministic(
    events: Seq<Metric>,
    ns: Seq<char>,
    tss1: Seq<i64>,
    tss2: Seq<i64>,
)
    requires
        forall|i: int| 0 <= i < events.len() ==> events[i].timestamp is Some,
        tss1.len() == events.len(),
        tss2.len() == events.len(),
        forall|i: int|
            0 <= i < events.len() && events[i].timestamp is Some ==> tss1[i]
                == events[i].timestamp->0,
        forall|i: int|
            0 <= i < events.len() && events[i].timestamp is Some ==> tss2[i]
                == events[i].timestamp->0,
    ensures
        spec_encode_events(events, ns, tss1) == spec_encode_events(events, ns, tss2),
{
    assert(tss1 =~= tss2);
}

/// At most one line per sample comes out, and lines keep the samples'
/// relative order: the encoding is the per-sample line sequence with the
/// suppressed (empty) entries dropped in place.
pub proof fn lemma_encode_events_len(events: Seq<Metric>, ns: Seq<char>, tss: Seq<i64>)
    ensures
        spec_encode_events(events, ns, tss).len() <= events.len(),
{
    let linesq = Seq::new(events.len(), |i: int| spec_line_of(events[i], ns, tss[i]));
    linesq.lemma_filter_len(|l: Seq<char>| l.len() > 0);
}

/// A malformed or empty distribution sample yields no line, whatever its
/// caller-supplied sum and avg parts hold.
pub proof fn lemma_invalid_distribution_no_line(m: Metric, ns: Seq<char>, ts: i64)
    requires
        m.value matches MetricValue::Distribution { values, sample_rates, .. } && (values@.len()
            != sample_rates@.len() || crate::distribution::spec_total_weight(sample_rates@) == 0),
    ensures
        spec_line_of(m, ns, ts) == Seq::<char>::empty(),
{
    match m.value {
        MetricValue::Distribution { values, sample_rates, sum, avg } => {
            crate::distribution::lemma_invalid_distribution_suppressed(
                values@,
                sample_rates@,
                sum,
                avg,
            );
        },
        _ => {},
    }
}

} // verus!
