//! Which texts read as an `f64`: the grammar of `f64::from_str`. The values
//! themselves are floating point and are not held here; only whether a text
//! is a number is decided.
use vstd::prelude::*;
use crate::text::{
    all_digits, ascii_lowercase, char_ascii_lower, first_index, first_index_vec, lemma_first_index_props, int_text_value,
    is_digit, same_text, sub_vec, field, field_vec, views,
};

verus! {

/// `Digit+ | Digit+ '.' Digit* | Digit* '.' Digit+`: digits with at most one
/// point, and at least one digit.
pub open spec fn mantissa_text(m: Seq<char>) -> bool {
    match first_index(m, '.') {
        Some(d) => m.len() >= 2 && all_digits(m.take(d)) && all_digits(m.skip(d + 1)),
        None => m.len() > 0 && all_digits(m),
    }
}

/// `Sign? Digit+`, the exponent after its `e`.
pub open spec fn exponent_text(x: Seq<char>) -> bool {
    int_text_value(x, true) is Some
}

/// `Number ::= Mantissa ('e' Exponent)?`, over lower-case text.
pub open spec fn number_text(t: Seq<char>) -> bool {
    match first_index(t, 'e') {
        Some(k) => mantissa_text(t.take(k)) && exponent_text(t.skip(k + 1)),
        None => mantissa_text(t),
    }
}

/// The text after an optional leading sign.
pub open spec fn unsigned_part(t: Seq<char>) -> Seq<char> {
    if t.len() > 0 && (t[0] == '+' || t[0] == '-') {
        t.skip(1)
    } else {
        t
    }
}

/// `Float ::= Sign? ('inf' | 'infinity' | 'nan' | Number)`, read without
/// regard to ASCII case: the texts on which `str::parse::<f64>` succeeds. No
/// white space is allowed, and an empty text is no number.
#[verifier::opaque]
pub open spec fn float_text(s: Seq<char>) -> bool {
    let body = unsigned_part(ascii_lowercase(s));
    ||| body == seq!['i', 'n', 'f']
    ||| body == seq!['i', 'n', 'f', 'i', 'n', 'i', 't', 'y']
    ||| body == seq!['n', 'a', 'n']
    ||| number_text(body)
}

/// Whether `v[a..b]` is all digits.
fn digits_between(v: &Vec<char>, a: usize, b: usize) -> (r: bool)
    requires
        a <= b <= v.len(),
    ensures
        r == all_digits(v@.subrange(a as int, b as int)),
{
    let mut i = a;
    while i < b
        invariant
            a <= i <= b <= v.len(),
            all_digits(v@.subrange(a as int, i as int)),
        decreases b - i,
    {
        if !('0' <= v[i] && v[i] <= '9') {
            assert(!is_digit(v@.subrange(a as int, b as int)[i - a]));
            return false;
        }
        assert forall|k: int| 0 <= k < i + 1 - a implies is_digit(
            #[trigger] v@.subrange(a as int, i + 1)[k],
        ) by {
            if k < i - a {
                assert(v@.subrange(a as int, i + 1)[k] == v@.subrange(a as int, i as int)[k]);
            }
        }
        i += 1;
    }
    true
}

fn is_mantissa(m: &Vec<char>) -> (r: bool)
    ensures
        r == mantissa_text(m@),
{
    proof {
        lemma_first_index_props(m@, '.');
    }
    match first_index_vec(m, '.') {
        Some(d) => {
            assert(m@.take(d as int) =~= m@.subrange(0, d as int));
            assert(m@.skip(d + 1) =~= m@.subrange(d + 1, m@.len() as int));
            m.len() >= 2 && digits_between(m, 0, d) && digits_between(m, d + 1, m.len())
        },
        None => {
            assert(m@ =~= m@.subrange(0, m@.len() as int));
            m.len() > 0 && digits_between(m, 0, m.len())
        },
    }
}

fn is_exponent(x: &Vec<char>) -> (r: bool)
    ensures
        r == exponent_text(x@),
{
    if x.len() > 0 && (x[0] == '-' || x[0] == '+') {
        assert(x@.skip(1) =~= x@.subrange(1, x@.len() as int));
        x.len() > 1 && digits_between(x, 1, x.len())
    } else {
        assert(x@ =~= x@.subrange(0, x@.len() as int));
        x.len() > 0 && digits_between(x, 0, x.len())
    }
}

fn is_number(t: &Vec<char>) -> (r: bool)
    ensures
        r == number_text(t@),
{
    proof {
        lemma_first_index_props(t@, 'e');
    }
    match first_index_vec(t, 'e') {
        Some(k) => {
            assert(k < t.len());
            let m = sub_vec(t, 0, k);
            let x = sub_vec(t, k + 1, t.len());
            assert(m@ =~= t@.take(k as int));
            assert(x@ =~= t@.skip(k + 1));
            is_mantissa(&m) && is_exponent(&x)
        },
        None => is_mantissa(t),
    }
}

/// Whether `str::parse::<f64>` accepts the text.
pub fn is_float_text(s: &Vec<char>) -> (r: bool)
    ensures
        r == float_text(s@),
{
    reveal(float_text);
    let mut lower: Vec<char> = Vec::new();
    let mut i: usize = 0;
    while i < s.len()
        invariant
            i <= s.len(),
            lower@ =~= ascii_lowercase(s@.take(i as int)),
        decreases s.len() - i,
    {
        lower.push(char_ascii_lower(s[i]));
        i += 1;
        assert(lower@ =~= ascii_lowercase(s@.take(i as int)));
    }
    assert(s@.take(i as int) =~= s@);
    let body = if lower.len() > 0 && (lower[0] == '+' || lower[0] == '-') {
        sub_vec(&lower, 1, lower.len())
    } else {
        sub_vec(&lower, 0, lower.len())
    };
    assert(body@ =~= unsigned_part(ascii_lowercase(s@)));
    let inf = vec!['i', 'n', 'f'];
    let infinity = vec!['i', 'n', 'f', 'i', 'n', 'i', 't', 'y'];
    let nan = vec!['n', 'a', 'n'];
    assert(inf@ =~= seq!['i', 'n', 'f']);
    assert(infinity@ =~= seq!['i', 'n', 'f', 'i', 'n', 'i', 't', 'y']);
    assert(nan@ =~= seq!['n', 'a', 'n']);
    same_text(&body, &inf) || same_text(&body, &infinity) || same_text(&body, &nan) || is_number(
        &body,
    )
}

/// Whether field `i` of a split line, trimmed, reads as an `f64`.
pub fn float_field(parts: &Vec<Vec<char>>, i: usize) -> (r: bool)
    requires
        i < parts.len(),
    ensures
        r == float_text(field(views(parts@), i as int)),
{
    let f = field_vec(parts, i);
    is_float_text(&f)
}

} // verus!
