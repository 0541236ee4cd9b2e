use vstd::prelude::*;

verus! {

use vstd::string::StringExecFns;
use crate::text::{lex_le, push_char, spec_i64_text, i64_to_text, u64_to_text};
use crate::escape::{spec_escape_key, spec_escape_string, encode_key, escape_string_value};
use crate::kv::{
    TagMap, FieldMap, tag_views, field_views, spec_kv_put, spec_insert_entry, spec_sort_entries,
    sort_entries, spec_render_field_value,
};
use crate::Field;

/// Insertion of a key/value pair into a key-sorted pair sequence.
pub open spec fn spec_insert_pair(
    e: (Seq<char>, Seq<char>),
    s: Seq<(Seq<char>, Seq<char>)>,
) -> Seq<(Seq<char>, Seq<char>)>
    decreases s.len(),
{
    if s.len() == 0 {
        seq![e]
    } else if lex_le(e.0, s[0].0) {
        seq![e] + s
    } else {
        seq![s[0]] + spec_insert_pair(e, s.drop_first())
    }
}

/// Insertion sort of key/value pairs by key, in lexicographic order; pairs
/// with equal keys keep their relative order.
pub open spec fn spec_sort_pairs(s: Seq<(Seq<char>, Seq<char>)>) -> Seq<(Seq<char>, Seq<char>)>
    decreases s.len(),
{
    if s.len() == 0 {
        Seq::empty()
    } else {
        spec_insert_pair(s[0], spec_sort_pairs(s.drop_first()))
    }
}

/// Of any two keys, one sorts at or before the other.
pub proof fn lemma_lex_le_total(a: Seq<char>, b: Seq<char>)
    ensures
        lex_le(a, b) || lex_le(b, a),
    decreases a.len(),
{
    if a.len() > 0 && b.len() > 0 && (a[0] as u32) == (b[0] as u32) {
        lemma_lex_le_total(a.drop_first(), b.drop_first());
    }
}

/// The key order is transitive.
pub proof fn lemma_lex_le_trans(a: Seq<char>, b: Seq<char>, c: Seq<char>)
    requires
        lex_le(a, b),
        lex_le(b, c),
    ensures
        lex_le(a, c),
    decreases a.len(),
{
    if a.len() > 0 && b.len() > 0 && c.len() > 0 && (a[0] as u32) == (b[0] as u32) && (b[0] as u32) == (c[0] as u32) {
        lemma_lex_le_trans(a.drop_first(), b.drop_first(), c.drop_first());
    }
}

/// The keys run in lexicographic order.
pub open spec fn spec_keys_sorted(s: Seq<(Seq<char>, Seq<char>)>) -> bool {
    forall|i: int, j: int| 0 <= i < j < s.len() ==> lex_le(s[i].0, s[j].0)
}

proof fn lemma_insert_pair_membership(
    e: (Seq<char>, Seq<char>),
    s: Seq<(Seq<char>, Seq<char>)>,
    x: (Seq<char>, Seq<char>),
)
    requires
        spec_insert_pair(e, s).contains(x),
    ensures
        x == e || s.contains(x),
    decreases s.len(),
{
    let r = spec_insert_pair(e, s);
    let k = choose|k: int| 0 <= k < r.len() && r[k] == x;
    if s.len() == 0 {
    } else if lex_le(e.0, s[0].0) {
        if k > 0 {
            assert(s[k - 1] == x);
        }
    } else {
        let r2 = spec_insert_pair(e, s.drop_first());
        if k == 0 {
            assert(s[0] == x);
        } else {
            assert(r2[k - 1] == x);
            assert(r2.contains(x));
            lemma_insert_pair_membership(e, s.drop_first(), x);
            if s.drop_first().contains(x) {
                let m = choose|m: int| 0 <= m < s.drop_first().len() && s.drop_first()[m] == x;
                assert(s[m + 1] == x);
            }
        }
    }
}

proof fn lemma_insert_pair_multiset(e: (Seq<char>, Seq<char>), s: Seq<(Seq<char>, Seq<char>)>)
    ensures
        spec_insert_pair(e, s).to_multiset() == s.to_multiset().insert(e),
    decreases s.len(),
{
    broadcast use vstd::seq_lib::group_to_multiset_ensures;

    let r = spec_insert_pair(e, s);
    if s.len() == 0 {
        assert(seq![e] =~= Seq::<(Seq<char>, Seq<char>)>::empty().push(e));
        assert(r.to_multiset() =~= s.to_multiset().insert(e));
    } else if lex_le(e.0, s[0].0) {
        vstd::seq_lib::lemma_multiset_commutative(seq![e], s);
        assert(seq![e] =~= Seq::<(Seq<char>, Seq<char>)>::empty().push(e));
        assert(r.to_multiset() =~= s.to_multiset().insert(e));
    } else {
        let r2 = spec_insert_pair(e, s.drop_first());
        lemma_insert_pair_multiset(e, s.drop_first());
        vstd::seq_lib::lemma_multiset_commutative(seq![s[0]], r2);
        vstd::seq_lib::lemma_multiset_commutative(seq![s[0]], s.drop_first());
        assert(seq![s[0]] + s.drop_first() =~= s);
        assert(seq![s[0]] =~= Seq::<(Seq<char>, Seq<char>)>::empty().push(s[0]));
        assert(r.to_multiset() =~= s.to_multiset().insert(e));
    }
}

proof fn lemma_insert_pair_sorted(e: (Seq<char>, Seq<char>), s: Seq<(Seq<char>, Seq<char>)>)
    requires
        spec_keys_sorted(s),
    ensures
        spec_keys_sorted(spec_insert_pair(e, s)),
    decreases s.len(),
{
    let r = spec_insert_pair(e, s);
    if s.len() == 0 {
    } else if lex_le(e.0, s[0].0) {
        assert forall|i: int, j: int| 0 <= i < j < r.len() implies lex_le(r[i].0, r[j].0) by {
            if i == 0 {
                assert(r[j] == s[j - 1]);
                if j > 1 {
                    lemma_lex_le_trans(e.0, s[0].0, s[j - 1].0);
                }
            } else {
                assert(r[i] == s[i - 1] && r[j] == s[j - 1]);
            }
        }
    } else {
        assert(spec_keys_sorted(s.drop_first()));
        lemma_insert_pair_sorted(e, s.drop_first());
        lemma_lex_le_total(e.0, s[0].0);
        let r2 = spec_insert_pair(e, s.drop_first());
        assert forall|i: int, j: int| 0 <= i < j < r.len() implies lex_le(r[i].0, r[j].0) by {
            if i == 0 {
                assert(r[j] == r2[j - 1]);
                assert(r2.contains(r2[j - 1]));
                lemma_insert_pair_membership(e, s.drop_first(), r2[j - 1]);
                if r2[j - 1] == e {
                    assert(lex_le(s[0].0, e.0));
                } else {
                    let m = choose|m: int|
                        0 <= m < s.drop_first().len() && s.drop_first()[m] == r2[j - 1];
                    assert(s[m + 1] == r2[j - 1]);
                    assert(lex_le(s[0].0, s[m + 1].0));
                }
            } else {
                assert(r[i] == r2[i - 1] && r[j] == r2[j - 1]);
            }
        }
    }
}

/// Sorting neither loses nor invents a pair, and leaves the keys in
/// lexicographic order.
pub proof fn lemma_sort_pairs_sorted(s: Seq<(Seq<char>, Seq<char>)>)
    ensures
        spec_keys_sorted(spec_sort_pairs(s)),
        spec_sort_pairs(s).to_multiset() == s.to_multiset(),
    decreases s.len(),
{
    broadcast use vstd::seq_lib::group_to_multiset_ensures;

    if s.len() > 0 {
        lemma_sort_pairs_sorted(s.drop_first());
        lemma_insert_pair_sorted(s[0], spec_sort_pairs(s.drop_first()));
        lemma_insert_pair_multiset(s[0], spec_sort_pairs(s.drop_first()));
        vstd::seq_lib::lemma_multiset_commutative(seq![s[0]], s.drop_first());
        assert(seq![s[0]] + s.drop_first() =~= s);
        assert(seq![s[0]] =~= Seq::<(Seq<char>, Seq<char>)>::empty().push(s[0]));
        assert(spec_sort_pairs(s).to_multiset() =~= s.to_multiset());
    }
}

/// One rendered `key=value` element: empty (that is, dropped) when the
/// escaped key or the rendered value is empty.
pub open spec fn spec_pair_text(k: Seq<char>, v: Seq<char>) -> Seq<char> {
    if spec_escape_key(k).len() > 0 && v.len() > 0 {
        spec_escape_key(k) + seq!['='] + v
    } else {
        Seq::empty()
    }
}

/// Comma-joins the non-empty parts, in order.
pub open spec fn spec_join_nonempty(parts: Seq<Seq<char>>) -> Seq<char>
    decreases parts.len(),
{
    if parts.len() == 0 {
        Seq::empty()
    } else {
        let rest = spec_join_nonempty(parts.drop_first());
        if parts[0].len() == 0 {
            rest
        } else if rest.len() == 0 {
            parts[0]
        } else {
            parts[0] + seq![','] + rest
        }
    }
}

/// What one more part adds at the right end of a comma-join.
pub open spec fn spec_join_append(a: Seq<char>, p: Seq<char>) -> Seq<char> {
    if p.len() == 0 {
        a
    } else if a.len() == 0 {
        p
    } else {
        a + seq![','] + p
    }
}

proof fn lemma_join_push(ps: Seq<Seq<char>>, p: Seq<char>)
    ensures
        spec_join_nonempty(ps.push(p)) == spec_join_append(spec_join_nonempty(ps), p),
    decreases ps.len(),
{
    let q = ps.push(p);
    if ps.len() == 0 {
        assert(q[0] == p);
        assert(q.drop_first() =~= Seq::<Seq<char>>::empty());
        assert(spec_join_nonempty(Seq::<Seq<char>>::empty()) == Seq::<char>::empty());
        assert(spec_join_nonempty(q.drop_first()) == Seq::<char>::empty());
        assert(spec_join_nonempty(ps) == Seq::<char>::empty());
        if p.len() == 0 {
            assert(spec_join_nonempty(q) == Seq::<char>::empty());
        } else {
            assert(spec_join_nonempty(q) == p);
        }
    } else {
        assert(q[0] == ps[0]);
        assert(q.drop_first() =~= ps.drop_first().push(p));
        lemma_join_push(ps.drop_first(), p);
        let a0 = ps[0];
        let rest = spec_join_nonempty(ps.drop_first());
        let restq = spec_join_nonempty(q.drop_first());
        assert(restq == spec_join_append(rest, p));
        assert(spec_join_nonempty(q) == (if a0.len() == 0 {
            restq
        } else if restq.len() == 0 {
            a0
        } else {
            a0 + seq![','] + restq
        }));
        assert(spec_join_nonempty(ps) == (if a0.len() == 0 {
            rest
        } else if rest.len() == 0 {
            a0
        } else {
            a0 + seq![','] + rest
        }));
        if p.len() == 0 {
            assert(restq == rest);
        } else if a0.len() == 0 {
            assert(spec_join_nonempty(q) == spec_join_append(spec_join_nonempty(ps), p));
        } else if rest.len() == 0 {
            assert(restq == p);
            assert(spec_join_nonempty(q) == a0 + seq![','] + p);
            assert(spec_join_nonempty(ps) == a0);
        } else {
            assert(restq == rest + seq![','] + p);
            assert(spec_join_nonempty(ps) == a0 + seq![','] + rest);
            assert((a0 + seq![','] + rest).len() > 0);
            assert(a0 + seq![','] + (rest + seq![','] + p) =~= (a0 + seq![','] + rest) + seq![',']
                + p);
        }
    }
}

/// The rendered tag set: pairs sorted by raw key, keys and values escaped,
/// empty keys or values dropped, the rest comma-joined.
pub open spec fn spec_encode_tags(pairs: Seq<(Seq<char>, Seq<char>)>) -> Seq<char> {
    spec_join_nonempty(
        spec_sort_pairs(pairs).map(
            |i: int, p: (Seq<char>, Seq<char>)| spec_pair_text(p.0, spec_escape_key(p.1)),
        ),
    )
}

/// The rendered field set: pairs sorted by raw key, keys escaped, values
/// already rendered, empty ones dropped, the rest comma-joined.
pub open spec fn spec_encode_fields(pairs: Seq<(Seq<char>, Seq<char>)>) -> Seq<char> {
    spec_join_nonempty(
        spec_sort_pairs(pairs).map(|i: int, p: (Seq<char>, Seq<char>)| spec_pair_text(p.0, p.1)),
    )
}

proof fn lemma_tag_insert_views(e: (String, String), s: Seq<(String, String)>)
    ensures
        tag_views(spec_insert_entry(e, s)) == spec_insert_pair((e.0@, e.1@), tag_views(s)),
    decreases s.len(),
{
    if s.len() == 0 {
        assert(tag_views(spec_insert_entry(e, s)) =~= seq![(e.0@, e.1@)]);
    } else if lex_le(e.0@, s[0].0@) {
        assert(tag_views(s)[0] == (s[0].0@, s[0].1@));
        assert(tag_views(seq![e] + s) =~= seq![(e.0@, e.1@)] + tag_views(s));
    } else {
        assert(tag_views(s)[0] == (s[0].0@, s[0].1@));
        lemma_tag_insert_views(e, s.drop_first());
        assert(tag_views(s.drop_first()) =~= tag_views(s).drop_first());
        assert(tag_views(seq![s[0]] + spec_insert_entry(e, s.drop_first())) =~= seq![
            tag_views(s)[0],
        ] + tag_views(spec_insert_entry(e, s.drop_first())));
    }
}

proof fn lemma_tag_sort_views(s: Seq<(String, String)>)
    ensures
        tag_views(spec_sort_entries(s)) == spec_sort_pairs(tag_views(s)),
    decreases s.len(),
{
    if s.len() == 0 {
        assert(tag_views(spec_sort_entries(s)) =~= spec_sort_pairs(tag_views(s)));
    } else {
        lemma_tag_sort_views(s.drop_first());
        lemma_tag_insert_views(s[0], spec_sort_entries(s.drop_first()));
        assert(tag_views(s.drop_first()) =~= tag_views(s).drop_first());
        assert(tag_views(s)[0] == (s[0].0@, s[0].1@));
    }
}

proof fn lemma_field_insert_views(e: (String, Field), s: Seq<(String, Field)>)
    ensures
        field_views(spec_insert_entry(e, s)) == spec_insert_pair(
            (e.0@, spec_render_field_value(e.1)),
            field_views(s),
        ),
    decreases s.len(),
{
    if s.len() == 0 {
        assert(field_views(spec_insert_entry(e, s)) =~= seq![(e.0@, spec_render_field_value(e.1))]);
    } else if lex_le(e.0@, s[0].0@) {
        assert(field_views(s)[0] == (s[0].0@, spec_render_field_value(s[0].1)));
        assert(field_views(seq![e] + s) =~= seq![(e.0@, spec_render_field_value(e.1))]
            + field_views(s));
    } else {
        assert(field_views(s)[0] == (s[0].0@, spec_render_field_value(s[0].1)));
        lemma_field_insert_views(e, s.drop_first());
        assert(field_views(s.drop_first()) =~= field_views(s).drop_first());
        assert(field_views(seq![s[0]] + spec_insert_entry(e, s.drop_first())) =~= seq![
            field_views(s)[0],
        ] + field_views(spec_insert_entry(e, s.drop_first())));
    }
}

proof fn lemma_field_sort_views(s: Seq<(String, Field)>)
    ensures
        field_views(spec_sort_entries(s)) == spec_sort_pairs(field_views(s)),
    decreases s.len(),
{
    if s.len() == 0 {
        assert(field_views(spec_sort_entries(s)) =~= spec_sort_pairs(field_views(s)));
    } else {
        lemma_field_sort_views(s.drop_first());
        lemma_field_insert_views(s[0], spec_sort_entries(s.drop_first()));
        assert(field_views(s.drop_first()) =~= field_views(s).drop_first());
        assert(field_views(s)[0] == (s[0].0@, spec_render_field_value(s[0].1)));
    }
}

/// Renders the tag set: `key=value` pairs sorted by key, escaped, pairs with
/// an empty key or value dropped.
pub fn encode_tags(tags: TagMap) -> (r: String)
    ensures
        r@ == spec_encode_tags(tags@),
{
    let ghost orig = tags@;
    let entries = tags.into_entries();
    let sorted = sort_entries(entries);
    proof {
        lemma_tag_sort_views(entries@);
    }
    let ghost sortedviews = spec_sort_pairs(orig);
    let ghost pieces = sortedviews.map(
        |i: int, p: (Seq<char>, Seq<char>)| spec_pair_text(p.0, spec_escape_key(p.1)),
    );
    let mut out = String::new();
    let mut i: usize = 0;
    proof {
        assert(pieces.take(0) =~= Seq::<Seq<char>>::empty());
    }
    while i < sorted.len()
        invariant
            i <= sorted.len(),
            tag_views(sorted@) == sortedviews,
            pieces == sortedviews.map(
                |i: int, p: (Seq<char>, Seq<char>)| spec_pair_text(p.0, spec_escape_key(p.1)),
            ),
            out@ == spec_join_nonempty(pieces.take(i as int)),
        decreases sorted.len() - i,
    {
        let kesc = encode_key(sorted[i].0.clone());
        let vesc = encode_key(sorted[i].1.clone());
        proof {
            assert(sortedviews[i as int] == (sorted@[i as int].0@, sorted@[i as int].1@));
            assert(pieces[i as int] == spec_pair_text(
                sortedviews[i as int].0,
                spec_escape_key(sortedviews[i as int].1),
            ));
            lemma_join_push(pieces.take(i as int), pieces[i as int]);
            assert(pieces.take(i as int).push(pieces[i as int]) =~= pieces.take(i as int + 1));
        }
        if !kesc.as_str().is_empty() && !vesc.as_str().is_empty() {
            if !out.as_str().is_empty() {
                push_char(&mut out, ',');
            }
            let ghost before = out@;
            out.append(kesc.as_str());
            push_char(&mut out, '=');
            out.append(vesc.as_str());
            proof {
                assert(out@ =~= before + (kesc@ + seq!['='] + vesc@));
            }
        }
        i = i + 1;
    }
    proof {
        assert(pieces.take(sorted@.len() as int) =~= pieces);
    }
    out
}

fn render_field_value(f: Field) -> (r: String)
    ensures
        r@ == spec_render_field_value(f),
{
    match f {
        Field::String(s) => {
            let inner = escape_string_value(s.as_str());
            let mut r = String::new();
            push_char(&mut r, '"');
            r.append(inner.as_str());
            push_char(&mut r, '"');
            proof {
                assert(r@ =~= seq!['"'] + spec_escape_string(s@) + seq!['"']);
            }
            r
        },
        Field::Float(t) => t,
        Field::UnsignedInt(u) => {
            let mut r = u64_to_text(u as u64);
            push_char(&mut r, 'i');
            r
        },
    }
}

/// Renders the field set: `key=value` pairs sorted by key, keys escaped,
/// values rendered by type, pairs with an empty key or value dropped.
pub fn encode_fields(fields: FieldMap) -> (r: String)
    ensures
        r@ == spec_encode_fields(fields@),
{
    let ghost orig = fields@;
    let entries = fields.into_entries();
    let sorted = sort_entries(entries);
    proof {
        lemma_field_sort_views(entries@);
    }
    let ghost sortedviews = spec_sort_pairs(orig);
    let ghost pieces = sortedviews.map(
        |i: int, p: (Seq<char>, Seq<char>)| spec_pair_text(p.0, p.1),
    );
    let mut out = String::new();
    let mut i: usize = 0;
    proof {
        assert(pieces.take(0) =~= Seq::<Seq<char>>::empty());
    }
    while i < sorted.len()
        invariant
            i <= sorted.len(),
            field_views(sorted@) == sortedviews,
            pieces == sortedviews.map(|i: int, p: (Seq<char>, Seq<char>)| spec_pair_text(p.0, p.1)),
            out@ == spec_join_nonempty(pieces.take(i as int)),
        decreases sorted.len() - i,
    {
        let kesc = encode_key(sorted[i].0.clone());
        let vtext = render_field_value(sorted[i].1.clone());
        proof {
            assert(sortedviews[i as int] == (
                sorted@[i as int].0@,
                spec_render_field_value(sorted@[i as int].1),
            ));
            assert(pieces[i as int] == spec_pair_text(
                sortedviews[i as int].0,
                sortedviews[i as int].1,
            ));
            lemma_join_push(pieces.take(i as int), pieces[i as int]);
            assert(pieces.take(i as int).push(pieces[i as int]) =~= pieces.take(i as int + 1));
        }
        if !kesc.as_str().is_empty() && !vtext.as_str().is_empty() {
            if !out.as_str().is_empty() {
                push_char(&mut out, ',');
            }
            let ghost before = out@;
            out.append(kesc.as_str());
            push_char(&mut out, '=');
            out.append(vtext.as_str());
            proof {
                assert(out@ =~= before + (kesc@ + seq!['='] + vtext@));
            }
        }
        i = i + 1;
    }
    proof {
        assert(pieces.take(sorted@.len() as int) =~= pieces);
    }
    out
}

/// The tag pairs of an optional tag set.
pub open spec fn opt_tag_pairs(t: Option<TagMap>) -> Seq<(Seq<char>, Seq<char>)> {
    match t {
        Some(m) => m@,
        None => Seq::empty(),
    }
}

/// The field pairs of an optional field set.
pub open spec fn opt_field_pairs(f: Option<FieldMap>) -> Seq<(Seq<char>, Seq<char>)> {
    match f {
        Some(m) => m@,
        None => Seq::empty(),
    }
}

/// One whole line: escaped measurement, the tag set with the `metric_type`
/// tag merged in (overwriting any tag of that key), the field set, and the
/// timestamp. The empty sequence when the rendered field set is empty: such
/// a line is suppressed.
pub open spec fn spec_influx_line(
    measurement: Seq<char>,
    metric_type: Seq<char>,
    tags: Seq<(Seq<char>, Seq<char>)>,
    fields: Seq<(Seq<char>, Seq<char>)>,
    ts: i64,
) -> Seq<char> {
    let tagtext = spec_encode_tags(spec_kv_put(tags, "metric_type"@, metric_type));
    let fieldtext = spec_encode_fields(fields);
    if fieldtext.len() == 0 {
        Seq::empty()
    } else {
        spec_escape_key(measurement) + seq![','] + tagtext + seq![' '] + fieldtext + seq![' ']
            + spec_i64_text(ts as int)
    }
}

/// Serializes one metric sample into line-protocol text; the empty string
/// signals that the line is suppressed (no fields survived rendering).
pub fn influx_line_protocol(
    measurement: String,
    metric_type: &str,
    tags: Option<TagMap>,
    fields: Option<FieldMap>,
    timestamp: i64,
) -> (r: String)
    ensures
        r@ == spec_influx_line(
            measurement@,
            metric_type@,
            opt_tag_pairs(tags),
            opt_field_pairs(fields),
            timestamp,
        ),
{
    let mut tagmap = match tags {
        Some(t) => t,
        None => TagMap::new(),
    };
    proof {
        assert(Seq::<(Seq<char>, Seq<char>)>::empty() =~= opt_tag_pairs(None));
    }
    tagmap.insert(String::from_str("metric_type"), String::from_str(metric_type));
    let tagtext = encode_tags(tagmap);
    let fieldmap = match fields {
        Some(f) => f,
        None => FieldMap::new(),
    };
    let fieldtext = encode_fields(fieldmap);
    if fieldtext.as_str().is_empty() {
        let r = String::new();
        return r;
    }
    let mut line = encode_key(measurement);
    push_char(&mut line, ',');
    line.append(tagtext.as_str());
    push_char(&mut line, ' ');
    line.append(fieldtext.as_str());
    push_char(&mut line, ' ');
    let tstext = i64_to_text(timestamp);
    line.append(tstext.as_str());
    proof {
        assert(line@ =~= spec_escape_key(measurement@) + seq![','] + tagtext@ + seq![' ']
            + fieldtext@ + seq![' '] + spec_i64_text(timestamp as int));
    }
    line
}

} // verus!
