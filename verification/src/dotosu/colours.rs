//! The `[Colours]` section: the combo colours `Combo1`, `Combo2`, ...
use vstd::prelude::*;
use crate::text::{
    chars_of, field, field_vec, int_text, lemma_distinct_within, lemma_nat_text_injective,
    nat_text, push_int, push_seq, push_str, split, split_vec, string_of, views,
};
use crate::dotosu::helpers::{KeyValuePairs, get_key_value_pairs, key_value_pairs, lemma_lookup_found, lookup};

use crate::float_syntax::{float_field, float_text};

verus! {

/// A combo colour; each channel is decimal text.
#[derive(Clone, Debug, PartialEq)]
pub struct Colour {
    pub r: String,
    pub g: String,
    pub b: String,
}

#[derive(Clone, Debug, PartialEq)]
pub struct ColoursSection {
    pub colors: Vec<Colour>,
}

/// `ComboN`.
pub open spec fn combo_key(n: nat) -> Seq<char> {
    "Combo"@ + nat_text(n)
}

/// A colour text has at least three comma-separated parts, and the first
/// three, trimmed, read as numbers.
pub open spec fn colour_ok(text: Seq<char>) -> bool {
    let p = split(text, ',');
    &&& p.len() >= 3
    &&& float_text(field(p, 0))
    &&& float_text(field(p, 1))
    &&& float_text(field(p, 2))
}

/// `c` holds the first three parts of the colour text, trimmed.
pub open spec fn colour_matches(c: Colour, text: Seq<char>) -> bool {
    let p = split(text, ',');
    &&& colour_ok(text)
    &&& c.r@ == field(p, 0)
    &&& c.g@ == field(p, 1)
    &&& c.b@ == field(p, 2)
}

/// `Combo1` to `ComboN` are there and `ComboN+1` is not.
pub open spec fn combo_count_is(pairs: Seq<(Seq<char>, Seq<char>)>, n: nat) -> bool {
    &&& forall|k: nat| 1 <= k <= n ==> lookup(pairs, #[trigger] combo_key(k)) is Some
    &&& lookup(pairs, combo_key(n + 1)) is None
}

/// Every colour of the unbroken run `Combo1`, `Combo2`, ... has three
/// numbers.
pub open spec fn colours_section_ok(section: Seq<char>) -> bool {
    key_value_pairs(section) matches Some(p) && forall|k: nat|
        #![trigger combo_key(k)]
        1 <= k && (forall|j: nat| 1 <= j <= k ==> lookup(p, #[trigger] combo_key(j)) is Some)
            ==> colour_ok(lookup(p, combo_key(k)).unwrap())
}

/// Reads a colour `r,g,b`: the first three comma-separated parts, trimmed;
/// `None` where there are fewer than three or one of them is no number.
pub fn parse_colour(colour_str: &str) -> (r: Option<Colour>)
    ensures
        r is Some <==> colour_ok(colour_str@),
        r matches Some(c) ==> colour_matches(c, colour_str@),
{
    let text = chars_of(colour_str);
    let parts = split_vec(&text, ',');
    if parts.len() < 3 {
        return None;
    }
    if !float_field(&parts, 0) || !float_field(&parts, 1) || !float_field(&parts, 2) {
        return None;
    }
    let r = string_of(&field_vec(&parts, 0));
    let g = string_of(&field_vec(&parts, 1));
    let b = string_of(&field_vec(&parts, 2));
    Some(Colour { r, g, b })
}

/// Different numbers have different combo keys.
pub proof fn lemma_combo_key_injective(a: nat, b: nat)
    ensures
        combo_key(a) == combo_key(b) ==> a == b,
{
    if combo_key(a) == combo_key(b) {
        let n = "Combo"@.len() as int;
        assert(combo_key(a).skip(n) =~= nat_text(a));
        assert(combo_key(b).skip(n) =~= nat_text(b));
        lemma_nat_text_injective(a, b);
    }
}

/// There are at most as many consecutive combo keys as pairs.
proof fn lemma_combo_count_bound(pairs: Seq<(Seq<char>, Seq<char>)>, n: nat)
    requires
        forall|k: nat| 1 <= k <= n ==> lookup(pairs, #[trigger] combo_key(k)) is Some,
    ensures
        n <= pairs.len(),
{
    let keys = pairs.map_values(|e: (Seq<char>, Seq<char>)| e.0);
    let ks = Seq::new(n, |i: int| combo_key((i + 1) as nat));
    assert forall|i: int, j: int| 0 <= i < ks.len() && 0 <= j < ks.len() && i != j implies ks[i]
        != ks[j] by {
        lemma_combo_key_injective((i + 1) as nat, (j + 1) as nat);
    }
    assert forall|i: int| 0 <= i < ks.len() implies keys.contains(#[trigger] ks[i]) by {
        assert(lookup(pairs, combo_key((i + 1) as nat)) is Some);
        lemma_lookup_found(pairs, combo_key((i + 1) as nat));
    }
    lemma_distinct_within(ks, keys);
}

fn combo_key_chars(n: u128) -> (r: Vec<char>)
    requires
        n <= 0x1_0000_0000_0000_0000,
    ensures
        r@ == combo_key(n as nat),
{
    let mut out: Vec<char> = Vec::new();
    push_str(&mut out, "Combo");
    push_int(&mut out, n as i128);
    out
}

/// Reads the `[Colours]` section: `Combo1`, `Combo2`, ... up to the first
/// missing number; `None` where its lines are not distinct `Key:Value` pairs or
/// one of those colours has fewer than three parts.
pub fn parse_colours_section(section_text: &str) -> (r: Option<ColoursSection>)
    ensures
        r is Some <==> colours_section_ok(section_text@),
        r matches Some(cs) ==> key_value_pairs(section_text@) matches Some(p) && combo_count_is(
            p,
            cs.colors.len() as nat,
        ) && forall|k: int|
            0 <= k < cs.colors.len() ==> colour_matches(
                #[trigger] cs.colors@[k],
                lookup(p, combo_key((k + 1) as nat)).unwrap(),
            ),
        r is None ==> key_value_pairs(section_text@) is None || exists|k: nat|
            #![trigger combo_key(k)]
            1 <= k && (forall|j: nat| 1 <= j <= k ==> lookup(
                key_value_pairs(section_text@).unwrap(),
                #[trigger] combo_key(j),
            ) is Some) && !colour_ok(lookup(key_value_pairs(section_text@).unwrap(), combo_key(k)).unwrap()),
{
    let pairs = match get_key_value_pairs(section_text) {
        Some(p) => p,
        None => return None,
    };
    let ghost ps = pairs.pairs();
    let total = pairs.len();
    let mut colours: Vec<Colour> = Vec::new();
    let mut n: u128 = 0;
    loop
        invariant
            ps == pairs.pairs(),
            total == ps.len(),
            key_value_pairs(section_text@) == Some(ps),
            n == colours.len(),
            n <= ps.len(),
            forall|k: nat| 1 <= k <= n ==> lookup(ps, #[trigger] combo_key(k)) is Some,
            forall|k: int|
                0 <= k < n ==> colour_matches(
                    #[trigger] colours@[k],
                    lookup(ps, combo_key((k + 1) as nat)).unwrap(),
                ),
        decreases ps.len() - n,
    {
        let key = combo_key_chars(n + 1);
        match pairs.get_chars(&key) {
            None => {
                assert(combo_count_is(ps, n as nat));
                assert forall|k: nat|
                    #![trigger combo_key(k)]
                    1 <= k && (forall|j: nat| 1 <= j <= k ==> lookup(ps, #[trigger] combo_key(j)) is Some)
                        implies colour_ok(lookup(ps, combo_key(k)).unwrap()) by {
                    if k > n {
                        assert(lookup(ps, combo_key((n + 1) as nat)) is Some);
                    }
                    assert(colour_matches(colours@[k - 1], lookup(ps, combo_key(((k - 1) + 1) as nat)).unwrap()));
                }
                return Some(ColoursSection { colors: colours });
            },
            Some(value) => {
                let text = string_of(&value);
                match parse_colour(text.as_str()) {
                    Some(c) => {
                        colours.push(c);
                        n = n + 1;
                        proof {
                            lemma_combo_count_bound(ps, n as nat);
                        }
                    },
                    None => {
                        assert(!colour_ok(lookup(ps, combo_key((n + 1) as nat)).unwrap()));
                        assert(forall|j: nat| 1 <= j <= n + 1 ==> lookup(ps, #[trigger] combo_key(j)) is Some);
                        return None;
                    },
                }
            },
        }
    }
}

/// `ComboN : r,g,b` for the colour at index `i` (`N` is `i + 1`).
pub open spec fn colour_line(i: nat, c: Colour) -> Seq<char> {
    "Combo"@ + nat_text(i + 1) + " : "@ + c.r@ + ","@ + c.g@ + ","@ + c.b@ + "\n"@
}

pub open spec fn colours_text(cs: Seq<Colour>) -> Seq<char>
    decreases cs.len(),
{
    if cs.len() == 0 {
        seq![]
    } else {
        colours_text(cs.drop_last()) + colour_line((cs.len() - 1) as nat, cs.last())
    }
}

impl ColoursSection {
    /// Writes one `ComboN : r,g,b` line per colour.
    pub fn to_osu_text(&self) -> (r: String)
        ensures
            r@ == colours_text(self.colors@),
    {
        let mut out: Vec<char> = Vec::new();
        let mut i: usize = 0;
        while i < self.colors.len()
            invariant
                i <= self.colors.len(),
                out@ == colours_text(self.colors@.take(i as int)),
            decreases self.colors.len() - i,
        {
            assert(self.colors@.take(i + 1).drop_last() =~= self.colors@.take(i as int));
            let c = &self.colors[i];
            let key = combo_key_chars((i + 1) as u128);
            push_seq(&mut out, &key);
            push_str(&mut out, " : ");
            push_str(&mut out, c.r.as_str());
            push_str(&mut out, ",");
            push_str(&mut out, c.g.as_str());
            push_str(&mut out, ",");
            push_str(&mut out, c.b.as_str());
            push_str(&mut out, "\n");
            i += 1;
            assert(out@ =~= colours_text(self.colors@.take(i as int)));
        }
        assert(self.colors@.take(i as int) =~= self.colors@);
        string_of(&out)
    }
}

} // verus!
