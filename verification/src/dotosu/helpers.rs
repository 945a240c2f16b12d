//! Finding a section of a `.osu` text and reading its `Key:Value` lines.
use vstd::prelude::*;
use vstd::string::StrSliceExecFns;
use crate::text::{string_of, chars_of, first_index_vec, lines, lines_vec, same_text, sub_vec, trim_vec, views, find, find_vec, first_index, lemma_first_index_props, occurs_at, lemma_find_props, lemma_first_index, push_str, trim, trim_bounds};

verus! {

/// `[name]`.
pub open spec fn section_header(name: Seq<char>) -> Seq<char> {
    seq!['['] + name + seq![']']
}

/// The body of section `name`: the text after the first `[name]` up to the next
/// `[` (or the end), trimmed.
pub open spec fn section_body(text: Seq<char>, name: Seq<char>) -> Option<Seq<char>> {
    let header = section_header(name);
    match find(text, header) {
        None => None,
        Some(i) => {
            let start = i + header.len();
            let end = match first_index(text.skip(start), '[') {
                Some(e) => start + e,
                None => text.len() as int,
            };
            Some(trim(text.subrange(start, end)))
        },
    }
}

/// Finds the body of section `section_name` in `osu_text`.
pub fn get_section<'a>(osu_text: &'a str, section_name: &'a str) -> (r: Option<&'a str>)
    ensures
        r is Some <==> section_body(osu_text@, section_name@) is Some,
        r matches Some(b) ==> section_body(osu_text@, section_name@) == Some(b@),
{
    let text = chars_of(osu_text);
    let mut header: Vec<char> = Vec::new();
    header.push('[');
    push_str(&mut header, section_name);
    header.push(']');
    assert(header@ =~= section_header(section_name@));
    let i = match find_vec(&text, &header) {
        None => return None,
        Some(i) => i,
    };
    proof {
        lemma_find_props(text@, header@);
        assert(occurs_at(text@, header@, i as int));
    }
    assert(i + header.len() <= text.len());
    let start = i + header.len();
    let mut j = start;
    while j < text.len() && text[j] != '['
        invariant
            start <= j <= text.len(),
            forall|k: int| start <= k < j ==> #[trigger] text@[k] != '[',
        decreases text.len() - j,
    {
        j += 1;
    }
    proof {
        let rest = text@.skip(start as int);
        assert forall|k: int| 0 <= k < j - start implies #[trigger] rest[k] != '[' by {
            assert(rest[k] == text@[k + start]);
        }
        if j < text.len() {
            assert(rest[j - start] == text@[j as int]);
        }
        lemma_first_index(rest, '[', j - start);
    }
    let (a, b) = trim_bounds(&text, start, j);
    Some(osu_text.substring_char(a, b))
}


/// A `Key:Value` line: the trimmed texts before and after its first `:`.
pub open spec fn key_value_line(line: Seq<char>) -> Option<(Seq<char>, Seq<char>)> {
    match first_index(line, ':') {
        None => None,
        Some(k) => Some((trim(line.take(k)), trim(line.skip(k + 1)))),
    }
}

/// Whether `key` is the key of one of `pairs`.
pub open spec fn has_key(pairs: Seq<(Seq<char>, Seq<char>)>, key: Seq<char>) -> bool {
    exists|i: int| 0 <= i < pairs.len() && #[trigger] pairs[i].0 == key
}

/// The pairs of `Key:Value` lines, in order; `None` where a line has no `:` or
/// a key comes twice.
pub open spec fn key_value_list(ls: Seq<Seq<char>>) -> Option<Seq<(Seq<char>, Seq<char>)>>
    decreases ls.len(),
{
    if ls.len() == 0 {
        Some(seq![])
    } else {
        match key_value_list(ls.drop_last()) {
            None => None,
            Some(prev) => match key_value_line(ls.last()) {
                None => None,
                Some(kv) => if has_key(prev, kv.0) {
                    None
                } else {
                    Some(prev.push(kv))
                },
            },
        }
    }
}

/// The `Key:Value` pairs of a section's lines.
pub open spec fn key_value_pairs(section: Seq<char>) -> Option<Seq<(Seq<char>, Seq<char>)>> {
    key_value_list(lines(section))
}

/// The value of `key` among `pairs`.
pub open spec fn lookup(pairs: Seq<(Seq<char>, Seq<char>)>, key: Seq<char>) -> Option<Seq<char>>
    decreases pairs.len(),
{
    if pairs.len() == 0 {
        None
    } else if pairs.last().0 == key {
        Some(pairs.last().1)
    } else {
        lookup(pairs.drop_last(), key)
    }
}

/// No key comes twice.
pub open spec fn distinct_keys(pairs: Seq<(Seq<char>, Seq<char>)>) -> bool {
    forall|i: int, j: int| 0 <= i < j < pairs.len() ==> pairs[i].0 != pairs[j].0
}

/// The `Key:Value` pairs of a section, in the order of their lines.
#[derive(Debug)]
pub struct KeyValuePairs {
    entries: Vec<(Vec<char>, Vec<char>)>,
}

pub open spec fn entry_views(es: Seq<(Vec<char>, Vec<char>)>) -> Seq<(Seq<char>, Seq<char>)> {
    es.map_values(|e: (Vec<char>, Vec<char>)| (e.0@, e.1@))
}

impl KeyValuePairs {
    pub closed spec fn pairs(self) -> Seq<(Seq<char>, Seq<char>)> {
        entry_views(self.entries@)
    }

    /// The number of pairs.
    pub fn len(&self) -> (r: usize)
        ensures
            r == self.pairs().len(),
    {
        self.entries.len()
    }

    /// The value of `key`.
    pub fn get(&self, key: &str) -> (r: Option<String>)
        ensures
            r is Some <==> lookup(self.pairs(), key@) is Some,
            r matches Some(v) ==> lookup(self.pairs(), key@) == Some(v@),
    {
        let k = chars_of(key);
        match self.get_chars(&k) {
            Some(v) => Some(string_of(&v)),
            None => None,
        }
    }

    /// The value of `key`, as characters.
    pub fn get_chars(&self, key: &Vec<char>) -> (r: Option<Vec<char>>)
        ensures
            r is Some <==> lookup(self.pairs(), key@) is Some,
            r matches Some(v) ==> lookup(self.pairs(), key@) == Some(v@),
    {
        let mut i = self.entries.len();
        assert(self.entries@.take(i as int) =~= self.entries@);
        while i > 0
            invariant
                i <= self.entries.len(),
                lookup(self.pairs(), key@) == lookup(entry_views(self.entries@.take(i as int)), key@),
            decreases i,
        {
            let ghost es = entry_views(self.entries@.take(i as int));
            assert(entry_views(self.entries@.take(i - 1)) =~= es.drop_last());
            if same_text(&self.entries[i - 1].0, key) {
                return Some(sub_vec(&self.entries[i - 1].1, 0, self.entries[i - 1].1.len()));
            }
            i -= 1;
        }
        None
    }
}

/// Once a prefix of the lines fails, the whole section fails.
pub proof fn lemma_key_value_prefix_none(ls: Seq<Seq<char>>, i: int)
    requires
        0 <= i <= ls.len(),
        key_value_list(ls.take(i)) is None,
    ensures
        key_value_list(ls) is None,
    decreases ls.len() - i,
{
    if i == ls.len() {
        assert(ls.take(i) =~= ls);
    } else {
        assert(ls.take(i + 1).drop_last() =~= ls.take(i));
        lemma_key_value_prefix_none(ls, i + 1);
    }
}

fn has_key_vec(entries: &Vec<(Vec<char>, Vec<char>)>, key: &Vec<char>) -> (r: bool)
    ensures
        r == has_key(entry_views(entries@), key@),
{
    let mut j: usize = 0;
    while j < entries.len()
        invariant
            j <= entries.len(),
            forall|k: int| 0 <= k < j ==> #[trigger] entries@[k].0@ != key@,
        decreases entries.len() - j,
    {
        if same_text(&entries[j].0, key) {
            assert(entry_views(entries@)[j as int].0 == key@);
            return true;
        }
        j += 1;
    }
    assert(!has_key(entry_views(entries@), key@)) by {
        if has_key(entry_views(entries@), key@) {
            let k = choose|k: int|
                0 <= k < entry_views(entries@).len() && #[trigger] entry_views(entries@)[k].0
                    == key@;
            assert(entries@[k].0@ == key@);
        }
    }
    false
}

/// Reads the `Key:Value` lines of a section; `None` where a line has no `:` or
/// a key comes twice.
pub fn get_key_value_pairs(section: &str) -> (r: Option<KeyValuePairs>)
    ensures
        r is Some <==> key_value_pairs(section@) is Some,
        r matches Some(p) ==> key_value_pairs(section@) == Some(p.pairs()),
{
    let text = chars_of(section);
    let ls = lines_vec(&text);
    let mut entries: Vec<(Vec<char>, Vec<char>)> = Vec::new();
    let mut i: usize = 0;
    while i < ls.len()
        invariant
            i <= ls.len(),
            views(ls@) == lines(text@),
            text@ == section@,
            key_value_list(views(ls@).take(i as int)) == Some(entry_views(entries@)),
        decreases ls.len() - i,
    {
        let ghost prefix = views(ls@).take(i as int);
        assert(views(ls@).take(i + 1).drop_last() =~= prefix);
        assert(views(ls@).take(i + 1).last() == ls@[i as int]@);
        let line = &ls[i];
        let colon = match first_index_vec(line, ':') {
            None => {
                proof {
                    assert(key_value_line(line@) is None);
                    assert(key_value_list(views(ls@).take(i + 1)) is None);
                    lemma_key_value_prefix_none(views(ls@), i + 1);
                }
                return None;
            },
            Some(c) => c,
        };
        proof {
            lemma_first_index_props(line@, ':');
        }
        let key_raw = sub_vec(line, 0, colon);
        let value_raw = sub_vec(line, colon + 1, line.len());
        assert(key_raw@ =~= line@.take(colon as int));
        assert(value_raw@ =~= line@.skip(colon + 1));
        let key = trim_vec(&key_raw);
        let value = trim_vec(&value_raw);
        if has_key_vec(&entries, &key) {
            proof {
                assert(key_value_line(line@) == Some((key@, value@)));
                assert(key_value_list(views(ls@).take(i + 1)) is None);
                lemma_key_value_prefix_none(views(ls@), i + 1);
            }
            return None;
        }
        let ghost old_es = entry_views(entries@);
        let ghost kv = (key@, value@);
        entries.push((key, value));
        assert(entry_views(entries@) =~= old_es.push(kv));
        i += 1;
    }
    assert(views(ls@).take(ls.len() as int) =~= views(ls@));
    Some(KeyValuePairs { entries })
}


/// The pairs of a section have distinct keys.
pub proof fn lemma_key_value_distinct(ls: Seq<Seq<char>>)
    ensures
        key_value_list(ls) matches Some(p) ==> distinct_keys(p),
    decreases ls.len(),
{
    if ls.len() > 0 {
        lemma_key_value_distinct(ls.drop_last());
        if let Some(p) = key_value_list(ls) {
            let prev = key_value_list(ls.drop_last()).unwrap();
            assert forall|i: int, j: int| 0 <= i < j < p.len() implies p[i].0 != p[j].0 by {
                if j == p.len() - 1 {
                    assert(p[i] == prev[i]);
                    if p[i].0 == p[j].0 {
                        assert(has_key(prev, p[j].0));
                    }
                } else {
                    assert(p[i] == prev[i] && p[j] == prev[j]);
                }
            }
        }
    }
}

/// A key that `lookup` finds is the key of one of the pairs.
pub proof fn lemma_lookup_found(pairs: Seq<(Seq<char>, Seq<char>)>, key: Seq<char>)
    ensures
        lookup(pairs, key) is Some ==> pairs.map_values(|e: (Seq<char>, Seq<char>)| e.0).contains(key),
    decreases pairs.len(),
{
    if pairs.len() > 0 {
        let keys = pairs.map_values(|e: (Seq<char>, Seq<char>)| e.0);
        if pairs.last().0 == key {
            assert(keys[pairs.len() - 1] == key);
        } else {
            lemma_lookup_found(pairs.drop_last(), key);
            let k2 = pairs.drop_last().map_values(|e: (Seq<char>, Seq<char>)| e.0);
            if lookup(pairs, key) is Some {
                let i = choose|i: int| 0 <= i < k2.len() && k2[i] == key;
                assert(keys[i] == key);
            }
        }
    }
}

} // verus!
