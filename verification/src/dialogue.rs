//! Choosing an entry of a selection dialogue by typing: its number, or a
//! piece of its name.
use vstd::prelude::*;
use crate::text::{
    ascii_lowercase, char_ascii_lower, chars_of, find, find_vec, parse_int, parse_int_vec, trim,
    trim_vec,
};

verus! {

/// The first entry whose name, in ASCII lowercase, contains `needle`.
pub open spec fn first_containing(entries: Seq<Seq<char>>, needle: Seq<char>) -> Option<int>
    decreases entries.len(),
{
    if entries.len() == 0 {
        None
    } else if find(ascii_lowercase(entries[0]), needle) is Some {
        Some(0)
    } else {
        match first_containing(entries.drop_first(), needle) {
            Some(i) => Some(i + 1),
            None => None,
        }
    }
}

/// The entry that typed text selects. The text is trimmed; nothing is
/// selected by an empty text. A number selects the entry with that index, if
/// there is one; any other text selects the first entry that contains it,
/// ignoring ASCII case.
pub open spec fn text_selection(input: Seq<char>, entries: Seq<Seq<char>>) -> Option<int> {
    let t = trim(input);
    if t.len() == 0 {
        None
    } else {
        match parse_int(t, 0, usize::MAX as int) {
            Some(i) => if i < entries.len() {
                Some(i)
            } else {
                None
            },
            None => first_containing(entries, ascii_lowercase(t)),
        }
    }
}

/// The names of the entries.
pub open spec fn entry_names(entries: Seq<String>) -> Seq<Seq<char>> {
    entries.map_values(|e: String| e@)
}

fn lowercase_vec(v: &Vec<char>) -> (r: Vec<char>)
    ensures
        r@ == ascii_lowercase(v@),
{
    let mut out: Vec<char> = Vec::new();
    let mut i: usize = 0;
    while i < v.len()
        invariant
            i <= v.len(),
            out@ == ascii_lowercase(v@.take(i as int)),
        decreases v.len() - i,
    {
        out.push(char_ascii_lower(v[i]));
        i += 1;
        assert(out@ =~= ascii_lowercase(v@.take(i as int)));
    }
    assert(v@.take(i as int) =~= v@);
    out
}

/// The index of the entry that the typed text selects, if any.
pub fn selection_from_text(input: &str, entries: &Vec<String>) -> (r: Option<usize>)
    ensures
        r matches Some(i) ==> text_selection(input@, entry_names(entries@)) == Some(i as int),
        r matches Some(i) ==> i < entries.len(),
        r is None ==> text_selection(input@, entry_names(entries@)) is None,
{
    let t = trim_vec(&chars_of(input));
    if t.len() == 0 {
        return None;
    }
    match parse_int_vec(&t, 0, usize::MAX as i128) {
        Some(i) => {
            if i < entries.len() as i128 {
                return Some(i as usize);
            }
            return None;
        },
        None => {},
    }
    let needle = lowercase_vec(&t);
    let ghost names = entry_names(entries@);
    assert(text_selection(input@, names) == first_containing(names, needle@));
    let mut k: usize = 0;
    assert(names.skip(0) =~= names);
    while k < entries.len()
        invariant
            k <= entries.len(),
            names == entry_names(entries@),
            needle@ == ascii_lowercase(t@),
            text_selection(input@, names) == first_containing(names, needle@),
            first_containing(names, needle@) == match first_containing(names.skip(k as int), needle@) {
                Some(j) => Some(j + k),
                None => None,
            },
        decreases entries.len() - k,
    {
        let ghost rest = names.skip(k as int);
        assert(rest[0] == entries@[k as int]@);
        assert(rest.drop_first() =~= names.skip(k + 1));
        let name = lowercase_vec(&chars_of(entries[k].as_str()));
        match find_vec(&name, &needle) {
            Some(_) => {
                return Some(k);
            },
            None => {},
        }
        k += 1;
    }
    assert(names.skip(k as int) =~= Seq::<Seq<char>>::empty());
    None
}

/// A number always selects by index: where the trimmed text reads as an
/// index `i`, the selection is entry `i` if there is one and nothing
/// otherwise, whatever the entries are named.
pub proof fn lemma_number_selects_index(input: Seq<char>, entries: Seq<Seq<char>>, i: int)
    requires
        parse_int(trim(input), 0, usize::MAX as int) == Some(i),
    ensures
        text_selection(input, entries) == (if i < entries.len() {
            Some(i)
        } else {
            None
        }),
{
}

/// Selecting by name gives an entry whose name contains the typed text (in
/// ASCII lowercase), with no earlier entry that does; where no entry does,
/// nothing is selected.
pub proof fn lemma_name_selects_first_match(input: Seq<char>, entries: Seq<Seq<char>>)
    requires
        trim(input).len() > 0,
        parse_int(trim(input), 0, usize::MAX as int) is None,
    ensures
        match text_selection(input, entries) {
            Some(j) => 0 <= j < entries.len() && find(
                ascii_lowercase(entries[j]),
                ascii_lowercase(trim(input)),
            ) is Some && forall|k: int|
                0 <= k < j ==> find(
                    ascii_lowercase(#[trigger] entries[k]),
                    ascii_lowercase(trim(input)),
                ) is None,
            None => forall|k: int|
                0 <= k < entries.len() ==> find(
                    ascii_lowercase(#[trigger] entries[k]),
                    ascii_lowercase(trim(input)),
                ) is None,
        },
{
    lemma_first_containing(entries, ascii_lowercase(trim(input)));
}

/// `first_containing` is the first entry that contains the needle.
proof fn lemma_first_containing(entries: Seq<Seq<char>>, needle: Seq<char>)
    ensures
        match first_containing(entries, needle) {
            Some(j) => 0 <= j < entries.len() && find(ascii_lowercase(entries[j]), needle) is Some
                && forall|k: int|
                0 <= k < j ==> find(ascii_lowercase(#[trigger] entries[k]), needle) is None,
            None => forall|k: int|
                0 <= k < entries.len() ==> find(ascii_lowercase(#[trigger] entries[k]), needle)
                    is None,
        },
    decreases entries.len(),
{
    if entries.len() > 0 {
        let rest = entries.drop_first();
        lemma_first_containing(rest, needle);
        assert forall|k: int| 0 < k < entries.len() implies entries[k] == rest[k - 1] by {}
    }
}

} // verus!
