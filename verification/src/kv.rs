use vstd::prelude::*;

verus! {

use crate::text::{lex_le, spec_digits};
use crate::escape::spec_escape_string;
use crate::Field;

/// The rendered text of a field value: a quoted, escaped string; a float's
/// own decimal text; or digits with the `i` integer marker.
pub open spec fn spec_render_field_value(f: Field) -> Seq<char> {
    match f {
        Field::String(s) => seq!['"'] + spec_escape_string(s@) + seq!['"'],
        Field::Float(t) => t@,
        Field::UnsignedInt(u) => spec_digits(u as nat).push('i'),
    }
}

/// A key paired with the text its value renders to. Tag and field sets are
/// both sequences of these at the specification level: the key is kept raw
/// (sorting happens on raw keys; escaping happens at render time), the value
/// is already rendered.
pub open spec fn tag_views(s: Seq<(String, String)>) -> Seq<(Seq<char>, Seq<char>)> {
    s.map(|i: int, e: (String, String)| (e.0@, e.1@))
}

pub open spec fn field_views(s: Seq<(String, Field)>) -> Seq<(Seq<char>, Seq<char>)> {
    s.map(|i: int, e: (String, Field)| (e.0@, spec_render_field_value(e.1)))
}

/// Key-unique update, last write wins: the first entry with key `k` is
/// replaced in place, and a fresh key is appended at the end.
pub open spec fn spec_kv_put(
    s: Seq<(Seq<char>, Seq<char>)>,
    k: Seq<char>,
    v: Seq<char>,
) -> Seq<(Seq<char>, Seq<char>)>
    decreases s.len(),
{
    if s.len() == 0 {
        seq![(k, v)]
    } else if s[0].0 == k {
        seq![(k, v)] + s.drop_first()
    } else {
        seq![s[0]] + spec_kv_put(s.drop_first(), k, v)
    }
}

/// Insertion into a key-sorted sequence: the new entry goes before the first
/// entry whose key sorts at or after it.
pub open spec fn spec_insert_entry<V>(e: (String, V), s: Seq<(String, V)>) -> Seq<(String, V)>
    decreases s.len(),
{
    if s.len() == 0 {
        seq![e]
    } else if lex_le(e.0@, s[0].0@) {
        seq![e] + s
    } else {
        seq![s[0]] + spec_insert_entry(e, s.drop_first())
    }
}

/// Insertion sort of entries by key, in lexicographic order.
pub open spec fn spec_sort_entries<V>(s: Seq<(String, V)>) -> Seq<(String, V)>
    decreases s.len(),
{
    if s.len() == 0 {
        Seq::empty()
    } else {
        spec_insert_entry(s[0], spec_sort_entries(s.drop_first()))
    }
}

fn insert_entry<V>(e: (String, V), v: Vec<(String, V)>) -> (r: Vec<(String, V)>)
    ensures
        r@ == spec_insert_entry(e, v@),
    decreases v@.len(),
{
    if v.len() == 0 {
        let mut r = v;
        r.push(e);
        proof {
            assert(r@ =~= spec_insert_entry(e, Seq::<(String, V)>::empty()));
        }
        r
    } else if crate::text::str_lex_le(e.0.as_str(), v[0].0.as_str()) {
        let ghost vs = v@;
        let mut r = v;
        r.insert(0, e);
        proof {
            assert(r@ =~= seq![e] + vs);
        }
        r
    } else {
        let ghost vs = v@;
        let mut rest = v;
        let h = rest.remove(0);
        let mut rr = insert_entry(e, rest);
        rr.insert(0, h);
        proof {
            assert(rr@ =~= seq![vs[0]] + spec_insert_entry(e, vs.drop_first()));
        }
        rr
    }
}

/// Sorts entries by key, lexicographically; entries with equal keys keep
/// their relative order.
pub fn sort_entries<V>(v: Vec<(String, V)>) -> (r: Vec<(String, V)>)
    ensures
        r@ == spec_sort_entries(v@),
    decreases v@.len(),
{
    if v.len() == 0 {
        v
    } else {
        let ghost vs = v@;
        let mut rest = v;
        let h = rest.remove(0);
        let sorted = sort_entries(rest);
        let r = insert_entry(h, sorted);
        proof {
            assert(r@ == spec_insert_entry(vs[0], spec_sort_entries(vs.drop_first())));
        }
        r
    }
}

/// A string-valued tag set with last-write-wins keys. Its view is the entry
/// sequence, keys and values as character sequences, in insertion order;
/// rendering sorts by key.
pub struct TagMap {
    entries: Vec<(String, String)>,
}

impl View for TagMap {
    type V = Seq<(Seq<char>, Seq<char>)>;

    closed spec fn view(&self) -> Seq<(Seq<char>, Seq<char>)> {
        tag_views(self.entries@)
    }
}

impl TagMap {
    pub fn new() -> (r: TagMap)
        ensures
            r@ == Seq::<(Seq<char>, Seq<char>)>::empty(),
    {
        let r = TagMap { entries: Vec::new() };
        proof {
            assert(r@ =~= Seq::<(Seq<char>, Seq<char>)>::empty());
        }
        r
    }

    /// Adds a tag; an existing tag of the same key is overwritten in place.
    pub fn insert(&mut self, k: String, v: String)
        ensures
            final(self)@ == spec_kv_put(old(self)@, k@, v@),
    {
        let mut entries: Vec<(String, String)> = Vec::new();
        core::mem::swap(&mut entries, &mut self.entries);
        let entries = tag_put(entries, k, v);
        self.entries = entries;
    }

    pub(crate) fn into_entries(self) -> (r: Vec<(String, String)>)
        ensures
            tag_views(r@) == self@,
    {
        self.entries
    }

    pub fn len(&self) -> (n: usize)
        ensures
            n == self@.len(),
    {
        proof {
            assert(self@.len() == self.entries@.len());
        }
        self.entries.len()
    }
}

fn tag_put(entries: Vec<(String, String)>, k: String, v: String) -> (r: Vec<(String, String)>)
    ensures
        tag_views(r@) == spec_kv_put(tag_views(entries@), k@, v@),
    decreases entries@.len(),
{
    let ghost es = entries@;
    if entries.len() == 0 {
        let mut r = entries;
        r.push((k, v));
        proof {
            assert(tag_views(es).len() == 0);
            assert(tag_views(r@) =~= seq![(k@, v@)]);
        }
        r
    } else if entries[0].0 == k {
        let mut r = entries;
        let discarded = r.remove(0);
        r.insert(0, (k, v));
        proof {
            assert(tag_views(es)[0].0 == es[0].0@);
            assert(tag_views(r@) =~= seq![(k@, v@)] + tag_views(es).drop_first());
        }
        r
    } else {
        let mut rest = entries;
        let h = rest.remove(0);
        let mut rr = tag_put(rest, k, v);
        rr.insert(0, h);
        proof {
            assert(tag_views(es)[0].0 == es[0].0@);
            assert(tag_views(es.drop_first()) =~= tag_views(es).drop_first());
            assert(tag_views(rr@) =~= seq![tag_views(es)[0]] + spec_kv_put(
                tag_views(es).drop_first(),
                k@,
                v@,
            ));
        }
        rr
    }
}

/// A field set with last-write-wins keys. Its view pairs each raw key with
/// the rendered text of its value, in insertion order.
pub struct FieldMap {
    entries: Vec<(String, Field)>,
}

impl View for FieldMap {
    type V = Seq<(Seq<char>, Seq<char>)>;

    closed spec fn view(&self) -> Seq<(Seq<char>, Seq<char>)> {
        field_views(self.entries@)
    }
}

impl FieldMap {
    pub fn new() -> (r: FieldMap)
        ensures
            r@ == Seq::<(Seq<char>, Seq<char>)>::empty(),
    {
        let r = FieldMap { entries: Vec::new() };
        proof {
            assert(r@ =~= Seq::<(Seq<char>, Seq<char>)>::empty());
        }
        r
    }

    /// Adds a field; an existing field of the same key is overwritten in
    /// place.
    pub fn insert(&mut self, k: String, f: Field)
        ensures
            final(self)@ == spec_kv_put(old(self)@, k@, spec_render_field_value(f)),
    {
        let mut entries: Vec<(String, Field)> = Vec::new();
        core::mem::swap(&mut entries, &mut self.entries);
        let entries = field_put(entries, k, f);
        self.entries = entries;
    }

    pub(crate) fn into_entries(self) -> (r: Vec<(String, Field)>)
        ensures
            field_views(r@) == self@,
    {
        self.entries
    }

    pub(crate) fn from_entries(entries: Vec<(String, Field)>) -> (r: FieldMap)
        ensures
            r@ == field_views(entries@),
    {
        FieldMap { entries }
    }

    pub fn len(&self) -> (n: usize)
        ensures
            n == self@.len(),
    {
        proof {
            assert(self@.len() == self.entries@.len());
        }
        self.entries.len()
    }
}

fn field_put(entries: Vec<(String, Field)>, k: String, f: Field) -> (r: Vec<(String, Field)>)
    ensures
        field_views(r@) == spec_kv_put(field_views(entries@), k@, spec_render_field_value(f)),
    decreases entries@.len(),
{
    let ghost es = entries@;
    if entries.len() == 0 {
        let mut r = entries;
        r.push((k, f));
        proof {
            assert(field_views(es).len() == 0);
            assert(field_views(r@) =~= seq![(k@, spec_render_field_value(f))]);
        }
        r
    } else if entries[0].0 == k {
        let mut r = entries;
        let discarded = r.remove(0);
        r.insert(0, (k, f));
        proof {
            assert(field_views(es)[0].0 == es[0].0@);
            assert(field_views(r@) =~= seq![(k@, spec_render_field_value(f))] + field_views(
                es,
            ).drop_first());
        }
        r
    } else {
        let mut rest = entries;
        let h = rest.remove(0);
        let mut rr = field_put(rest, k, f);
        rr.insert(0, h);
        proof {
            assert(field_views(es)[0].0 == es[0].0@);
            assert(field_views(es.drop_first()) =~= field_views(es).drop_first());
            assert(field_views(rr@) =~= seq![field_views(es)[0]] + spec_kv_put(
                field_views(es).drop_first(),
                k@,
                spec_render_field_value(f),
            ));
        }
        rr
    }
}

} // verus!
