use vstd::prelude::*;

verus! {

use vstd::string::StrSliceExecFns;
use crate::text::push_char;

/// The characters that must be escaped in measurement names, tag keys and
/// values, and field keys.
pub open spec fn is_key_special(c: char) -> bool {
    c == '\\' || c == ',' || c == ' ' || c == '='
}

/// The characters that must be escaped inside a double-quoted field string.
pub open spec fn is_string_special(c: char) -> bool {
    c == '\\' || c == '"'
}

/// One escaped character: a backslash is put before each special character.
/// Escaping the backslash itself first, then the other special characters,
/// is the same as this single pass, since the inserted backslashes are never
/// escaped again.
pub open spec fn escape_key_char(c: char) -> Seq<char> {
    if is_key_special(c) {
        seq!['\\', c]
    } else {
        seq![c]
    }
}

pub open spec fn escape_string_char(c: char) -> Seq<char> {
    if is_string_special(c) {
        seq!['\\', c]
    } else {
        seq![c]
    }
}

/// A sequence expanded character by character through `f`.
pub open spec fn expand_chars(f: spec_fn(char) -> Seq<char>, s: Seq<char>) -> Seq<char>
    decreases s.len(),
{
    if s.len() == 0 {
        Seq::empty()
    } else {
        f(s[0]) + expand_chars(f, s.drop_first())
    }
}

/// The escaped form of a measurement name, tag key or value, or field key:
/// `\`, `,`, ` ` and `=` each get a preceding backslash.
pub open spec fn spec_escape_key(s: Seq<char>) -> Seq<char> {
    expand_chars(|c: char| escape_key_char(c), s)
}

/// The escaped form of the inside of a double-quoted field string: `\` and
/// `"` each get a preceding backslash.
pub open spec fn spec_escape_string(s: Seq<char>) -> Seq<char> {
    expand_chars(|c: char| escape_string_char(c), s)
}

pub proof fn lemma_expand_chars_concat(f: spec_fn(char) -> Seq<char>, a: Seq<char>, b: Seq<char>)
    ensures
        expand_chars(f, a + b) == expand_chars(f, a) + expand_chars(f, b),
    decreases a.len(),
{
    if a.len() == 0 {
        assert(a + b =~= b);
        assert(expand_chars(f, a) + expand_chars(f, b) =~= expand_chars(f, b));
    } else {
        assert((a + b).drop_first() =~= a.drop_first() + b);
        lemma_expand_chars_concat(f, a.drop_first(), b);
        assert(expand_chars(f, a + b) =~= f(a[0]) + (expand_chars(f, a.drop_first())
            + expand_chars(f, b)));
        assert(f(a[0]) + (expand_chars(f, a.drop_first()) + expand_chars(f, b)) =~= (f(a[0])
            + expand_chars(f, a.drop_first())) + expand_chars(f, b));
    }
}

proof fn lemma_expand_chars_push(f: spec_fn(char) -> Seq<char>, s: Seq<char>, c: char)
    ensures
        expand_chars(f, s.push(c)) == expand_chars(f, s) + f(c),
{
    assert(s.push(c) =~= s + seq![c]);
    lemma_expand_chars_concat(f, s, seq![c]);
    assert(seq![c].drop_first() =~= Seq::<char>::empty());
    assert(seq![c][0] == c);
    assert(expand_chars(f, seq![c]) == f(c) + expand_chars(f, Seq::<char>::empty()));
    assert(f(c) + Seq::<char>::empty() =~= f(c));
}

/// A string with none of the escaped characters is its own escaped form.
pub proof fn lemma_escape_key_safe_identity(s: Seq<char>)
    requires
        forall|i: int| 0 <= i < s.len() ==> !is_key_special(s[i]),
    ensures
        spec_escape_key(s) == s,
    decreases s.len(),
{
    if s.len() == 0 {
        assert(spec_escape_key(s) =~= s);
    } else {
        lemma_escape_key_safe_identity(s.drop_first());
        assert(spec_escape_key(s) =~= seq![s[0]] + s.drop_first());
        assert(seq![s[0]] + s.drop_first() =~= s);
    }
}

fn escape_with(s: &str, for_string: bool) -> (r: String)
    ensures
        !for_string ==> r@ == spec_escape_key(s@),
        for_string ==> r@ == spec_escape_string(s@),
{
    let len: usize = s.unicode_len();
    let mut r = String::new();
    let mut i: usize = 0;
    proof {
        assert(s@.take(0) =~= Seq::<char>::empty());
        assert(expand_chars(|c: char| escape_key_char(c), s@.take(0)) =~= Seq::<char>::empty());
        assert(expand_chars(|c: char| escape_string_char(c), s@.take(0)) =~= Seq::<char>::empty());
    }
    while i < len
        invariant
            i <= len,
            len == s@.len(),
            !for_string ==> r@ == spec_escape_key(s@.take(i as int)),
            for_string ==> r@ == spec_escape_string(s@.take(i as int)),
        decreases len - i,
    {
        let c: char = s.get_char(i);
        let special: bool = if for_string {
            c == '\\' || c == '"'
        } else {
            c == '\\' || c == ',' || c == ' ' || c == '='
        };
        if special {
            push_char(&mut r, '\\');
        }
        push_char(&mut r, c);
        proof {
            assert(s@.take(i as int).push(c) =~= s@.take(i as int + 1));
            if for_string {
                lemma_expand_chars_push(|x: char| escape_string_char(x), s@.take(i as int), c);
                if special {
                    assert(r@ =~= spec_escape_string(s@.take(i as int)) + seq!['\\', c]);
                }
            } else {
                lemma_expand_chars_push(|x: char| escape_key_char(x), s@.take(i as int), c);
                if special {
                    assert(r@ =~= spec_escape_key(s@.take(i as int)) + seq!['\\', c]);
                }
            }
        }
        i = i + 1;
    }
    proof {
        assert(s@.take(len as int) =~= s@);
    }
    r
}

/// Escapes a measurement name, tag key, tag value, or field key.
pub fn encode_key(key: String) -> (r: String)
    ensures
        r@ == spec_escape_key(key@),
{
    escape_with(key.as_str(), false)
}

/// Escapes the inside of a double-quoted field string value.
pub fn escape_string_value(s: &str) -> (r: String)
    ensures
        r@ == spec_escape_string(s@),
{
    escape_with(s, true)
}

} // verus!
