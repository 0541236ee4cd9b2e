use vstd::prelude::*;

verus! {

use vstd::string::StringExecFns;
use crate::{FloatVal, Field};
use crate::kv::{FieldMap, field_views};
use crate::text::{spec_digits, u64_to_text};

/// The monotone key of an IEEE-754 double bit pattern: two patterns compare
/// under this key as the numbers they encode compare (negative numbers are
/// reversed, the sign bit flipped), so sorting by it sorts the samples
/// ascending. Patterns that encode NaN sort to the two far ends.
pub open spec fn float_order_key(bits: u64) -> u64 {
    if bits >= 0x8000_0000_0000_0000 {
        !bits
    } else {
        (bits + 0x8000_0000_0000_0000) as u64
    }
}

/// Sample order: ascending by encoded value.
pub open spec fn float_le(a: u64, b: u64) -> bool {
    float_order_key(a) <= float_order_key(b)
}

fn float_le_exec(a: u64, b: u64) -> (r: bool)
    ensures
        r == float_le(a, b),
{
    let ka: u64 = if a >= 0x8000_0000_0000_0000 {
        !a
    } else {
        a + 0x8000_0000_0000_0000
    };
    let kb: u64 = if b >= 0x8000_0000_0000_0000 {
        !b
    } else {
        b + 0x8000_0000_0000_0000
    };
    ka <= kb
}

/// The expansion of a compressed distribution: each value repeated as many
/// times as its weight, in order.
pub open spec fn spec_expand(values: Seq<FloatVal>, rates: Seq<u32>) -> Seq<FloatVal>
    decreases values.len(),
{
    if values.len() == 0 || rates.len() == 0 {
        Seq::empty()
    } else {
        Seq::new(rates[0] as nat, |i: int| values[0]) + spec_expand(
            values.drop_first(),
            rates.drop_first(),
        )
    }
}

/// The sum of the weights.
pub open spec fn spec_total_weight(rates: Seq<u32>) -> int
    decreases rates.len(),
{
    if rates.len() == 0 {
        0
    } else {
        rates[0] + spec_total_weight(rates.drop_first())
    }
}

/// The expansion has exactly one sample per unit of weight.
pub proof fn lemma_expand_len(values: Seq<FloatVal>, rates: Seq<u32>)
    requires
        values.len() == rates.len(),
    ensures
        spec_expand(values, rates).len() == spec_total_weight(rates),
    decreases values.len(),
{
    if values.len() > 0 {
        lemma_expand_len(values.drop_first(), rates.drop_first());
    }
}

/// Insertion of a sample into an ascending sequence.
pub open spec fn spec_insert_float(e: FloatVal, s: Seq<FloatVal>) -> Seq<FloatVal>
    decreases s.len(),
{
    if s.len() == 0 {
        seq![e]
    } else if float_le(e.bits, s[0].bits) {
        seq![e] + s
    } else {
        seq![s[0]] + spec_insert_float(e, s.drop_first())
    }
}

/// Insertion sort of samples, ascending.
pub open spec fn spec_sort_floats(s: Seq<FloatVal>) -> Seq<FloatVal>
    decreases s.len(),
{
    if s.len() == 0 {
        Seq::empty()
    } else {
        spec_insert_float(s[0], spec_sort_floats(s.drop_first()))
    }
}

proof fn lemma_insert_float_len(e: FloatVal, s: Seq<FloatVal>)
    ensures
        spec_insert_float(e, s).len() == s.len() + 1,
    decreases s.len(),
{
    if s.len() > 0 && !float_le(e.bits, s[0].bits) {
        lemma_insert_float_len(e, s.drop_first());
    }
}

/// Sorting rearranges the samples and loses none.
pub proof fn lemma_sort_floats_len(s: Seq<FloatVal>)
    ensures
        spec_sort_floats(s).len() == s.len(),
    decreases s.len(),
{
    if s.len() > 0 {
        lemma_sort_floats_len(s.drop_first());
        lemma_insert_float_len(s[0], spec_sort_floats(s.drop_first()));
    }
}

/// The samples run ascending.
pub open spec fn spec_floats_sorted(s: Seq<FloatVal>) -> bool {
    forall|i: int, j: int| 0 <= i < j < s.len() ==> float_le(s[i].bits, s[j].bits)
}

proof fn lemma_insert_float_membership(e: FloatVal, s: Seq<FloatVal>, x: FloatVal)
    requires
        spec_insert_float(e, s).contains(x),
    ensures
        x == e || s.contains(x),
    decreases s.len(),
{
    let r = spec_insert_float(e, s);
    let k = choose|k: int| 0 <= k < r.len() && r[k] == x;
    if s.len() == 0 {
    } else if float_le(e.bits, s[0].bits) {
        if k > 0 {
            assert(s[k - 1] == x);
        }
    } else {
        let r2 = spec_insert_float(e, s.drop_first());
        if k == 0 {
            assert(s[0] == x);
        } else {
            assert(r2[k - 1] == x);
            assert(r2.contains(x));
            lemma_insert_float_membership(e, s.drop_first(), x);
            if s.drop_first().contains(x) {
                let m = choose|m: int| 0 <= m < s.drop_first().len() && s.drop_first()[m] == x;
                assert(s[m + 1] == x);
            }
        }
    }
}

proof fn lemma_insert_float_sorted(e: FloatVal, s: Seq<FloatVal>)
    requires
        spec_floats_sorted(s),
    ensures
        spec_floats_sorted(spec_insert_float(e, s)),
    decreases s.len(),
{
    let r = spec_insert_float(e, s);
    if s.len() == 0 {
    } else if float_le(e.bits, s[0].bits) {
        assert forall|i: int, j: int| 0 <= i < j < r.len() implies float_le(
            r[i].bits,
            r[j].bits,
        ) by {
            if i == 0 {
                assert(r[j] == s[j - 1]);
                if j > 1 {
                    assert(float_le(s[0].bits, s[j - 1].bits));
                }
            } else {
                assert(r[i] == s[i - 1] && r[j] == s[j - 1]);
            }
        }
    } else {
        assert(spec_floats_sorted(s.drop_first()));
        lemma_insert_float_sorted(e, s.drop_first());
        let r2 = spec_insert_float(e, s.drop_first());
        assert forall|i: int, j: int| 0 <= i < j < r.len() implies float_le(
            r[i].bits,
            r[j].bits,
        ) by {
            if i == 0 {
                assert(r[j] == r2[j - 1]);
                assert(r2.contains(r2[j - 1]));
                lemma_insert_float_membership(e, s.drop_first(), r2[j - 1]);
                if r2[j - 1] != e {
                    let m = choose|m: int|
                        0 <= m < s.drop_first().len() && s.drop_first()[m] == r2[j - 1];
                    assert(s[m + 1] == r2[j - 1]);
                    assert(float_le(s[0].bits, s[m + 1].bits));
                }
            } else {
                assert(r[i] == r2[i - 1] && r[j] == r2[j - 1]);
            }
        }
    }
}

proof fn lemma_insert_float_multiset(e: FloatVal, s: Seq<FloatVal>)
    ensures
        spec_insert_float(e, s).to_multiset() == s.to_multiset().insert(e),
    decreases s.len(),
{
    broadcast use vstd::seq_lib::group_to_multiset_ensures;

    let r = spec_insert_float(e, s);
    if s.len() == 0 {
        assert(seq![e] =~= Seq::<FloatVal>::empty().push(e));
        assert(r.to_multiset() =~= s.to_multiset().insert(e));
    } else if float_le(e.bits, s[0].bits) {
        vstd::seq_lib::lemma_multiset_commutative(seq![e], s);
        assert(seq![e] =~= Seq::<FloatVal>::empty().push(e));
        assert(r.to_multiset() =~= s.to_multiset().insert(e));
    } else {
        let r2 = spec_insert_float(e, s.drop_first());
        lemma_insert_float_multiset(e, s.drop_first());
        vstd::seq_lib::lemma_multiset_commutative(seq![s[0]], r2);
        vstd::seq_lib::lemma_multiset_commutative(seq![s[0]], s.drop_first());
        assert(seq![s[0]] + s.drop_first() =~= s);
        assert(seq![s[0]] =~= Seq::<FloatVal>::empty().push(s[0]));
        assert(r.to_multiset() =~= s.to_multiset().insert(e));
    }
}

/// Sorting the expansion loses no sample, invents none, and leaves them in
/// ascending order, so the summary reads true order statistics.
pub proof fn lemma_sort_floats_sorted(s: Seq<FloatVal>)
    ensures
        spec_floats_sorted(spec_sort_floats(s)),
        spec_sort_floats(s).to_multiset() == s.to_multiset(),
    decreases s.len(),
{
    broadcast use vstd::seq_lib::group_to_multiset_ensures;

    if s.len() > 0 {
        lemma_sort_floats_sorted(s.drop_first());
        lemma_insert_float_sorted(s[0], spec_sort_floats(s.drop_first()));
        lemma_insert_float_multiset(s[0], spec_sort_floats(s.drop_first()));
        vstd::seq_lib::lemma_multiset_commutative(seq![s[0]], s.drop_first());
        assert(seq![s[0]] + s.drop_first() =~= s);
        assert(seq![s[0]] =~= Seq::<FloatVal>::empty().push(s[0]));
        assert(spec_sort_floats(s).to_multiset() =~= s.to_multiset());
    }
}

fn insert_float(e: FloatVal, v: Vec<FloatVal>) -> (r: Vec<FloatVal>)
    ensures
        r@ == spec_insert_float(e, v@),
    decreases v@.len(),
{
    if v.len() == 0 {
        let mut r = v;
        r.push(e);
        proof {
            assert(r@ =~= spec_insert_float(e, Seq::<FloatVal>::empty()));
        }
        r
    } else if float_le_exec(e.bits, v[0].bits) {
        let ghost vs = v@;
        let mut r = v;
        r.insert(0, e);
        proof {
            assert(r@ =~= seq![e] + vs);
        }
        r
    } else {
        let ghost vs = v@;
        let mut rest = v;
        let h = rest.remove(0);
        let mut rr = insert_float(e, rest);
        rr.insert(0, h);
        proof {
            assert(rr@ =~= seq![vs[0]] + spec_insert_float(e, vs.drop_first()));
        }
        rr
    }
}

fn sort_floats(v: Vec<FloatVal>) -> (r: Vec<FloatVal>)
    ensures
        r@ == spec_sort_floats(v@),
    decreases v@.len(),
{
    if v.len() == 0 {
        v
    } else {
        let ghost vs = v@;
        let mut rest = v;
        let h = rest.remove(0);
        let sorted = sort_floats(rest);
        let r = insert_float(h, sorted);
        proof {
            assert(r@ == spec_insert_float(vs[0], spec_sort_floats(vs.drop_first())));
        }
        r
    }
}

fn expand(values: &Vec<FloatVal>, rates: &Vec<u32>) -> (r: Vec<FloatVal>)
    requires
        values@.len() == rates@.len(),
    ensures
        r@ == spec_expand(values@, rates@),
{
    let mut out: Vec<FloatVal> = Vec::new();
    let mut i: usize = 0;
    proof {
        assert(values@.skip(0) =~= values@);
        assert(rates@.skip(0) =~= rates@);
    }
    while i < values.len()
        invariant
            i <= values@.len(),
            values@.len() == rates@.len(),
            spec_expand(values@, rates@) == out@ + spec_expand(
                values@.skip(i as int),
                rates@.skip(i as int),
            ),
        decreases values@.len() - i,
    {
        let rate: u32 = rates[i];
        let ghost out_start = out@;
        let mut j: u32 = 0;
        while j < rate
            invariant
                j <= rate,
                i < values@.len(),
                values@.len() == rates@.len(),
                out@ == out_start + Seq::new(j as nat, |k: int| values@[i as int]),
            decreases rate - j,
        {
            let sample = values[i].clone();
            out.push(sample);
            proof {
                assert(Seq::new((j + 1) as nat, |k: int| values@[i as int]) =~= Seq::new(
                    j as nat,
                    |k: int| values@[i as int],
                ).push(values@[i as int]));
                assert(out@ =~= out_start + Seq::new((j + 1) as nat, |k: int| values@[i as int]));
            }
            j = j + 1;
        }
        proof {
            assert(values@.skip(i as int)[0] == values@[i as int]);
            assert(rates@.skip(i as int)[0] == rates@[i as int]);
            assert(values@.skip(i as int).drop_first() =~= values@.skip(i as int + 1));
            assert(rates@.skip(i as int).drop_first() =~= rates@.skip(i as int + 1));
            assert(spec_expand(values@.skip(i as int), rates@.skip(i as int)) == Seq::new(
                rates@[i as int] as nat,
                |k: int| values@[i as int],
            ) + spec_expand(values@.skip(i as int + 1), rates@.skip(i as int + 1)));
            assert(spec_expand(values@, rates@) =~= out@ + spec_expand(
                values@.skip(i as int + 1),
                rates@.skip(i as int + 1),
            ));
        }
        i = i + 1;
    }
    proof {
        assert(values@.skip(values@.len() as int).len() == 0);
        assert(spec_expand(values@, rates@) =~= out@);
    }
    out
}

/// The expanded sample list, sorted ascending: what the summary statistics
/// are read from, and the order in which the caller must add the samples to
/// obtain `sum`. None when the lengths mismatch or the expansion is empty.
pub fn expand_sorted(values: &Vec<FloatVal>, sample_rates: &Vec<u32>) -> (r: Option<Vec<FloatVal>>)
    ensures
        r is Some <==> (values@.len() == sample_rates@.len() && spec_expand(
            values@,
            sample_rates@,
        ).len() > 0),
        r is Some ==> r->0@ == spec_sort_floats(spec_expand(values@, sample_rates@)),
        r is Some ==> spec_floats_sorted(r->0@) && r->0@.to_multiset() == spec_expand(
            values@,
            sample_rates@,
        ).to_multiset(),
{
    if values.len() != sample_rates.len() {
        return None;
    }
    let ex = expand(values, sample_rates);
    if ex.len() == 0 {
        return None;
    }
    let sorted = sort_floats(ex);
    proof {
        lemma_sort_floats_sorted(ex@);
    }
    Some(sorted)
}

/// The sorted index read for the median: round-half-away-from-zero of
/// `0.5 * n - 1`, which for n >= 2 is `(10n - 10) / 20` in integers.
pub open spec fn spec_median_index(n: nat) -> int {
    (10 * n - 10) / 20
}

/// The sorted index read for the 95th percentile: round-half-away-from-zero
/// of `0.95 * n - 1`, which for n >= 2 is `(19n - 10) / 20` in integers.
pub open spec fn spec_p95_index(n: nat) -> int {
    (19 * n - 10) / 20
}

fn median_index(n: usize) -> (r: usize)
    requires
        n >= 2,
    ensures
        r == spec_median_index(n as nat),
        r < n,
{
    let m: u128 = (10 * (n as u128) - 10) / 20;
    proof {
        assert((10 * (n as int) - 10) / 20 < n as int) by (nonlinear_arith)
            requires
                n >= 2,
        ;
        assert(m == spec_median_index(n as nat));
    }
    m as usize
}

fn p95_index(n: usize) -> (r: usize)
    requires
        n >= 2,
    ensures
        r == spec_p95_index(n as nat),
        r < n,
{
    let m: u128 = (19 * (n as u128) - 10) / 20;
    proof {
        assert((19 * (n as int) - 10) / 20 < n as int) by (nonlinear_arith)
            requires
                n >= 2,
        ;
        assert(m == spec_p95_index(n as nat));
    }
    m as usize
}

/// The seven summary fields of a distribution, as key/rendered-value pairs
/// in the order they are stored: min, max, median, avg, sum, count,
/// quantile_0.95. None when the lengths mismatch or the expansion is empty.
/// A single sample is its own summary, with count 1; otherwise min, max,
/// median and the 95th percentile are read from the sorted expansion, and
/// the caller-computed sum and avg are carried through.
pub open spec fn spec_distribution_fields(
    values: Seq<FloatVal>,
    rates: Seq<u32>,
    sum: FloatVal,
    avg: FloatVal,
) -> Option<Seq<(Seq<char>, Seq<char>)>> {
    if values.len() != rates.len() {
        None
    } else {
        let ex = spec_expand(values, rates);
        if ex.len() == 0 {
            None
        } else if ex.len() == 1 {
            Some(
                seq![
                    ("min"@, ex[0].text@),
                    ("max"@, ex[0].text@),
                    ("median"@, ex[0].text@),
                    ("avg"@, ex[0].text@),
                    ("sum"@, ex[0].text@),
                    ("count"@, spec_digits(1)),
                    ("quantile_0.95"@, ex[0].text@),
                ],
            )
        } else {
            let sorted = spec_sort_floats(ex);
            let n = sorted.len();
            Some(
                seq![
                    ("min"@, sorted[0].text@),
                    ("max"@, sorted[n - 1].text@),
                    ("median"@, sorted[spec_median_index(n)].text@),
                    ("avg"@, avg.text@),
                    ("sum"@, sum.text@),
                    ("count"@, spec_digits(n)),
                    ("quantile_0.95"@, sorted[spec_p95_index(n)].text@),
                ],
            )
        }
    }
}

/// A malformed or empty distribution has no summary: mismatched lengths, or
/// weights that add up to zero (an empty value list included), yield None.
pub proof fn lemma_invalid_distribution_suppressed(
    values: Seq<FloatVal>,
    rates: Seq<u32>,
    sum: FloatVal,
    avg: FloatVal,
)
    requires
        values.len() != rates.len() || spec_total_weight(rates) == 0,
    ensures
        spec_distribution_fields(values, rates, sum, avg) is None,
{
    if values.len() == rates.len() {
        lemma_expand_len(values, rates);
    }
}

/// Computes the distribution summary fields, or None for a malformed or
/// empty distribution.
pub fn encode_distribution(
    values: &Vec<FloatVal>,
    counts: &Vec<u32>,
    sum: &FloatVal,
    avg: &FloatVal,
) -> (r: Option<FieldMap>)
    ensures
        r is Some <==> spec_distribution_fields(values@, counts@, *sum, *avg) is Some,
        r is Some ==> r->0@ == spec_distribution_fields(values@, counts@, *sum, *avg)->0,
{
    let sorted = match expand_sorted(values, counts) {
        Some(s) => s,
        None => {
            return None;
        },
    };
    let n: usize = sorted.len();
    proof {
        lemma_sort_floats_len(spec_expand(values@, counts@));
    }
    let mut entries: Vec<(String, Field)> = Vec::new();
    if n == 1 {
        proof {
            let ex = spec_expand(values@, counts@);
            assert(spec_sort_floats(ex) == spec_insert_float(
                ex[0],
                spec_sort_floats(ex.drop_first()),
            ));
            assert(ex.drop_first().len() == 0);
            assert(spec_sort_floats(ex) =~= seq![ex[0]]);
        }
        let t: &String = &sorted[0].text;
        entries.push((String::from_str("min"), Field::Float(t.clone())));
        entries.push((String::from_str("max"), Field::Float(t.clone())));
        entries.push((String::from_str("median"), Field::Float(t.clone())));
        entries.push((String::from_str("avg"), Field::Float(t.clone())));
        entries.push((String::from_str("sum"), Field::Float(t.clone())));
        entries.push((String::from_str("count"), Field::Float(u64_to_text(1))));
        entries.push((String::from_str("quantile_0.95"), Field::Float(t.clone())));
        let fm = FieldMap::from_entries(entries);
        proof {
            assert(fm@ =~= spec_distribution_fields(values@, counts@, *sum, *avg)->0);
        }
        Some(fm)
    } else {
        let mi: usize = median_index(n);
        let pi: usize = p95_index(n);
        entries.push((String::from_str("min"), Field::Float(sorted[0].text.clone())));
        entries.push((String::from_str("max"), Field::Float(sorted[n - 1].text.clone())));
        entries.push((String::from_str("median"), Field::Float(sorted[mi].text.clone())));
        entries.push((String::from_str("avg"), Field::Float(avg.text.clone())));
        entries.push((String::from_str("sum"), Field::Float(sum.text.clone())));
        entries.push((String::from_str("count"), Field::Float(u64_to_text(n as u64))));
        entries.push((String::from_str("quantile_0.95"), Field::Float(sorted[pi].text.clone())));
        let fm = FieldMap::from_entries(entries);
        proof {
            assert(fm@ =~= spec_distribution_fields(values@, counts@, *sum, *avg)->0);
        }
        Some(fm)
    }
}

} // verus!
