//! Decisions of the editor window that stand apart from drawing and sound:
//! the text box that renames the current edit state, the hitsound sample
//! sets, and the bookmarks a difficulty keeps in its `[Editor]` section.
use vstd::prelude::*;
use vstd::utf8::{encode_scalar, encode_utf8};
use crate::text::{chars_of, push_seq, push_str, same_text, split, split_vec, string_of, sub_vec, trim, trim_vec};
use crate::dotosu::helpers::{get_key_value_pairs, get_section, key_value_pairs, lookup, section_body};

verus! {

/// The byte length at which the rename box stops taking characters.
pub const MAX_NAME_LEN: usize = 40;

/// `char::is_control`: the general category Cc, code points 0 to 0x1F and
/// 0x7F to 0x9F.
pub open spec fn is_control_char(c: char) -> bool {
    (c as u32) <= 0x1F || (0x7F <= (c as u32) && (c as u32) <= 0x9F)
}

/// The length in bytes of the UTF-8 encoding of a text.
pub open spec fn utf8_len(s: Seq<char>) -> nat {
    encode_utf8(s).len()
}

/// The text with the non-control characters of `chars` appended, one by one,
/// for as long as the text is shorter than the limit before each of them.
pub open spec fn append_chars(text: Seq<char>, chars: Seq<char>) -> Seq<char>
    decreases chars.len(),
{
    if chars.len() == 0 {
        text
    } else if is_control_char(chars[0]) {
        append_chars(text, chars.drop_first())
    } else if utf8_len(text) >= MAX_NAME_LEN {
        text
    } else {
        append_chars(text.push(chars[0]), chars.drop_first())
    }
}

/// The characters of `chars` that are no control characters.
pub open spec fn printable(chars: Seq<char>) -> Seq<char>
    decreases chars.len(),
{
    if chars.len() == 0 {
        chars
    } else if is_control_char(chars[0]) {
        printable(chars.drop_first())
    } else {
        seq![chars[0]] + printable(chars.drop_first())
    }
}

fn char_is_control(c: char) -> (r: bool)
    ensures
        r == is_control_char(c),
{
    let u = c as u32;
    u <= 0x1F || (0x7F <= u && u <= 0x9F)
}

/// `char::len_utf8`.
fn char_width(c: char) -> (r: usize)
    ensures
        r == encode_scalar(c as u32).len(),
        1 <= r <= 4,
{
    let u = c as u32;
    proof {
        vstd::utf8::char_is_scalar(c);
    }
    if u < 0x80 {
        1
    } else if u < 0x800 {
        2
    } else if u < 0x10000 {
        3
    } else {
        4
    }
}

/// The encoding of a text with a character appended is the encoding of the
/// text followed by that of the character.
pub proof fn lemma_encode_push(s: Seq<char>, c: char)
    ensures
        encode_utf8(s.push(c)) == encode_utf8(s) + encode_scalar(c as u32),
    decreases s.len(),
{
    if s.len() == 0 {
        assert(s.push(c).drop_first() =~= Seq::<char>::empty());
        assert(encode_utf8(Seq::<char>::empty()) =~= Seq::<u8>::empty());
        assert(encode_utf8(s.push(c)) =~= encode_scalar(c as u32) + encode_utf8(
            Seq::<char>::empty(),
        ));
    } else {
        assert(s.push(c).drop_first() =~= s.drop_first().push(c));
        lemma_encode_push(s.drop_first(), c);
        assert(encode_utf8(s.push(c)) =~= encode_scalar(s[0] as u32) + (encode_utf8(
            s.drop_first(),
        ) + encode_scalar(c as u32)));
    }
}

/// Dropping the last character of a text drops its encoding's tail.
proof fn lemma_encode_drop_last(s: Seq<char>)
    requires
        s.len() > 0,
    ensures
        utf8_len(s) == utf8_len(s.drop_last()) + encode_scalar(s.last() as u32).len(),
{
    assert(s.drop_last().push(s.last()) =~= s);
    lemma_encode_push(s.drop_last(), s.last());
}

/// The text box that renames the current edit state. While it is open it
/// takes typed characters, up to a limit in bytes, and no control
/// characters.
pub struct StateRename {
    renaming: bool,
    input: Vec<char>,
    byte_len: usize,
}

impl StateRename {
    pub closed spec fn active(self) -> bool {
        self.renaming
    }

    pub closed spec fn text(self) -> Seq<char> {
        self.input@
    }

    #[verifier::type_invariant]
    closed spec fn well_formed(self) -> bool {
        &&& self.byte_len == utf8_len(self.input@)
        &&& self.byte_len <= MAX_NAME_LEN + 3
        &&& forall|i: int| 0 <= i < self.input@.len() ==> !is_control_char(#[trigger] self.input@[i])
    }

    /// A closed rename box with no text.
    pub fn new() -> (r: StateRename)
        ensures
            !r.active(),
            r.text().len() == 0,
    {
        let r = StateRename { renaming: false, input: Vec::new(), byte_len: 0 };
        assert(encode_utf8(r.input@) =~= Seq::<u8>::empty());
        r
    }

    /// Opens the box with an empty text.
    pub fn begin_current_state_rename(&mut self)
        ensures
            final(self).active(),
            final(self).text().len() == 0,
    {
        let input: Vec<char> = Vec::new();
        assert(encode_utf8(input@) =~= Seq::<u8>::empty());
        *self = StateRename { renaming: true, input, byte_len: 0 };
    }

    /// Closes the box and forgets its text.
    pub fn cancel_current_state_rename(&mut self)
        ensures
            !final(self).active(),
            final(self).text().len() == 0,
    {
        let input: Vec<char> = Vec::new();
        assert(encode_utf8(input@) =~= Seq::<u8>::empty());
        *self = StateRename { renaming: false, input, byte_len: 0 };
    }

    /// Closes the box; where it was open, returns the name to give the
    /// current edit state.
    pub fn commit_current_state_rename(&mut self) -> (r: Option<String>)
        ensures
            !old(self).active() ==> r is None && *final(self) == *old(self),
            old(self).active() ==> (r matches Some(name) && name@ == old(self).text()),
            old(self).active() ==> !final(self).active() && final(self).text().len() == 0,
    {
        if !self.renaming {
            return None;
        }
        let name = string_of(&self.input);
        self.cancel_current_state_rename();
        Some(name)
    }

    /// Appends typed text: its control characters are dropped, and the others
    /// are taken while the text is shorter than the limit. Nothing happens
    /// while the box is closed.
    pub fn append_current_state_rename_text(&mut self, text: &str)
        ensures
            !old(self).active() ==> *final(self) == *old(self),
            old(self).active() ==> final(self).text() == append_chars(old(self).text(), text@),
            final(self).active() == old(self).active(),
    {
        proof {
            use_type_invariant(&*self);
        }
        if !self.renaming {
            return;
        }
        if self.byte_len >= MAX_NAME_LEN {
            proof {
                lemma_append_full(self.input@, text@);
            }
            return;
        }
        let chars = chars_of(text);
        let ghost start = self.input@;
        let mut input = sub_vec(&self.input, 0, self.input.len());
        assert(input@ =~= start);
        assert(chars@.skip(0) =~= chars@);
        let mut byte_len = self.byte_len;
        let mut i: usize = 0;
        let mut full = false;
        while i < chars.len() && !full
            invariant
                i <= chars.len(),
                chars@ == text@,
                byte_len == utf8_len(input@),
                byte_len <= MAX_NAME_LEN + 3,
                full ==> byte_len >= MAX_NAME_LEN,
                forall|k: int| 0 <= k < input@.len() ==> !is_control_char(#[trigger] input@[k]),
                append_chars(start, text@) == if full {
                    input@
                } else {
                    append_chars(input@, chars@.skip(i as int))
                },
            decreases chars.len() - i, (if full { 0int } else { 1int }),
        {
            let c = chars[i];
            assert(chars@.skip(i as int).drop_first() =~= chars@.skip(i + 1));
            if char_is_control(c) {
                i += 1;
            } else if byte_len >= MAX_NAME_LEN {
                full = true;
            } else {
                let w = char_width(c);
                proof {
                    lemma_encode_push(input@, c);
                }
                input.push(c);
                byte_len = byte_len + w;
                i += 1;
            }
        }
        if !full {
            assert(chars@.skip(i as int) =~= Seq::<char>::empty());
        }
        *self = StateRename { renaming: true, input, byte_len };
    }

    /// Removes the last character of the text while the box is open.
    pub fn backspace_current_state_rename(&mut self)
        ensures
            !old(self).active() ==> *final(self) == *old(self),
            old(self).active() ==> final(self).text() == (if old(self).text().len() == 0 {
                old(self).text()
            } else {
                old(self).text().drop_last()
            }),
            final(self).active() == old(self).active(),
    {
        proof {
            use_type_invariant(&*self);
        }
        if !self.renaming || self.input.len() == 0 {
            return;
        }
        let ghost before = self.input@;
        let c = self.input[self.input.len() - 1];
        let w = char_width(c);
        proof {
            lemma_encode_drop_last(before);
        }
        let input = sub_vec(&self.input, 0, self.input.len() - 1);
        assert(input@ =~= before.drop_last());
        let byte_len = self.byte_len - w;
        *self = StateRename { renaming: true, input, byte_len };
    }

    /// Whether the box is open.
    pub fn is_current_state_rename_active(&self) -> (r: bool)
        ensures
            r == self.active(),
    {
        self.renaming
    }

    /// The text typed so far: never longer than the limit by more than one
    /// character's bytes, and free of control characters.
    pub fn current_state_name_input(&self) -> (r: String)
        ensures
            r@ == self.text(),
            utf8_len(r@) <= MAX_NAME_LEN + 3,
            forall|i: int| 0 <= i < r@.len() ==> !is_control_char(#[trigger] r@[i]),
    {
        proof {
            use_type_invariant(self);
        }
        string_of(&self.input)
    }
}

/// A full text takes no more characters.
proof fn lemma_append_full(text: Seq<char>, chars: Seq<char>)
    requires
        utf8_len(text) >= MAX_NAME_LEN,
    ensures
        append_chars(text, chars) == text,
    decreases chars.len(),
{
    if chars.len() > 0 {
        lemma_append_full(text, chars.drop_first());
    }
}

/// While the text fits, typing appends exactly its non-control characters.
pub proof fn lemma_append_fits(text: Seq<char>, chars: Seq<char>)
    requires
        utf8_len(text + printable(chars)) <= MAX_NAME_LEN,
    ensures
        append_chars(text, chars) == text + printable(chars),
    decreases chars.len(),
{
    if chars.len() > 0 {
        let rest = chars.drop_first();
        if is_control_char(chars[0]) {
            lemma_append_fits(text, rest);
        } else {
            let t2 = text.push(chars[0]);
            assert(text + printable(chars) =~= t2 + printable(rest));
            lemma_utf8_len_prefix(t2, printable(rest));
            lemma_utf8_len_prefix(text, seq![chars[0]]);
            assert(text + seq![chars[0]] =~= t2);
            lemma_encode_push(text, chars[0]);
            assert(utf8_len(t2) == utf8_len(text) + encode_scalar(chars[0] as u32).len());
            vstd::utf8::char_is_scalar(chars[0]);
            assert(encode_scalar(chars[0] as u32).len() >= 1);
            lemma_append_fits(t2, rest);
        }
    }
}

/// A prefix of a text encodes to no more bytes than the text.
proof fn lemma_utf8_len_prefix(a: Seq<char>, b: Seq<char>)
    ensures
        utf8_len(a) <= utf8_len(a + b),
    decreases b.len(),
{
    if b.len() > 0 {
        let ab = a + b;
        assert((a + b.drop_last()).push(b.last()) =~= ab);
        lemma_encode_push(a + b.drop_last(), b.last());
        lemma_utf8_len_prefix(a, b.drop_last());
    }
}

/// Typing one character into an open box that has room, then erasing one,
/// gives back the text.
pub proof fn lemma_backspace_undoes_append(text: Seq<char>, c: char)
    requires
        !is_control_char(c),
        utf8_len(text) < MAX_NAME_LEN,
    ensures
        append_chars(text, seq![c]).drop_last() == text,
{
    assert(seq![c].drop_first() =~= Seq::<char>::empty());
    assert(append_chars(text.push(c), seq![c].drop_first()) == text.push(c));
    assert(text.push(c).drop_last() =~= text);
}

/// Where the hitsounds of one sample set sit among the loaded sounds.
#[derive(Clone, Copy, Debug, PartialEq, Eq, Structural)]
pub struct HitsoundSamplesetIndices {
    pub hitclap: usize,
    pub hitfinish: usize,
    pub hitnormal: usize,
    pub hitwhistle: usize,
}

/// The sound indices of a sample set's four hitsounds.
#[derive(Clone, Copy, Debug, PartialEq, Eq, Structural)]
pub struct SamplesetIdx {
    pub hitclap: usize,
    pub hitfinish: usize,
    pub hitnormal: usize,
    pub hitwhistle: usize,
}

impl SamplesetIdx {
    pub fn to_hitsound_sampleset_indices(&self) -> (r: HitsoundSamplesetIndices)
        ensures
            r.hitclap == self.hitclap,
            r.hitfinish == self.hitfinish,
            r.hitnormal == self.hitnormal,
            r.hitwhistle == self.hitwhistle,
    {
        HitsoundSamplesetIndices {
            hitclap: self.hitclap,
            hitfinish: self.hitfinish,
            hitnormal: self.hitnormal,
            hitwhistle: self.hitwhistle,
        }
    }
}

/// The names and indices of the loaded sounds.
pub open spec fn index_views(v: Seq<(String, usize)>) -> Seq<(Seq<char>, usize)> {
    v.map_values(|e: (String, usize)| (e.0@, e.1))
}

/// The index of the first sound named `key`.
pub open spec fn index_of_name(entries: Seq<(Seq<char>, usize)>, key: Seq<char>) -> Option<usize>
    decreases entries.len(),
{
    if entries.len() == 0 {
        None
    } else if entries[0].0 == key {
        Some(entries[0].1)
    } else {
        index_of_name(entries.drop_first(), key)
    }
}

/// The file name of a hitsound: `{set}-{sample}{ext}`.
pub open spec fn sample_file(set: Seq<char>, sample: Seq<char>, ext: Seq<char>) -> Seq<char> {
    set + "-"@ + sample + ext
}

/// The index of a hitsound, from its `.wav`, else `.ogg`, else `.mp3` file.
pub open spec fn sample_index(entries: Seq<(Seq<char>, usize)>, set: Seq<char>, sample: Seq<char>) -> Option<
    usize,
> {
    match index_of_name(entries, sample_file(set, sample, ".wav"@)) {
        Some(i) => Some(i),
        None => match index_of_name(entries, sample_file(set, sample, ".ogg"@)) {
            Some(i) => Some(i),
            None => index_of_name(entries, sample_file(set, sample, ".mp3"@)),
        },
    }
}

/// The sample set `set`, where all four of its hitsounds were loaded.
pub open spec fn sampleset_of(entries: Seq<(Seq<char>, usize)>, set: Seq<char>) -> Option<SamplesetIdx> {
    match (
        sample_index(entries, set, "hitclap"@),
        sample_index(entries, set, "hitfinish"@),
        sample_index(entries, set, "hitnormal"@),
        sample_index(entries, set, "hitwhistle"@),
    ) {
        (Some(c), Some(f), Some(n), Some(w)) => Some(
            SamplesetIdx { hitclap: c, hitfinish: f, hitnormal: n, hitwhistle: w },
        ),
        _ => None,
    }
}

fn find_index(entries: &Vec<(String, usize)>, key: &Vec<char>) -> (r: Option<usize>)
    ensures
        r == index_of_name(index_views(entries@), key@),
{
    let ghost all = index_views(entries@);
    let mut i: usize = 0;
    assert(all.skip(0) =~= all);
    while i < entries.len()
        invariant
            i <= entries.len(),
            all == index_views(entries@),
            index_of_name(all, key@) == index_of_name(all.skip(i as int), key@),
        decreases entries.len() - i,
    {
        assert(all.skip(i as int)[0] == all[i as int]);
        if same_text(&chars_of(entries[i].0.as_str()), key) {
            return Some(entries[i].1);
        }
        assert(all.skip(i as int).drop_first() =~= all.skip(i + 1));
        i += 1;
    }
    assert(all.skip(i as int) =~= Seq::<(Seq<char>, usize)>::empty());
    None
}

fn sample_file_name(set: &str, sample: &str, ext: &str) -> (r: Vec<char>)
    ensures
        r@ == sample_file(set@, sample@, ext@),
{
    let mut k: Vec<char> = Vec::new();
    push_str(&mut k, set);
    push_str(&mut k, "-");
    push_str(&mut k, sample);
    push_str(&mut k, ext);
    assert(k@ =~= sample_file(set@, sample@, ext@));
    k
}

fn load_sample(set: &str, sample: &str, entries: &Vec<(String, usize)>) -> (r: Option<usize>)
    ensures
        r == sample_index(index_views(entries@), set@, sample@),
{
    match find_index(entries, &sample_file_name(set, sample, ".wav")) {
        Some(i) => return Some(i),
        None => {},
    }
    match find_index(entries, &sample_file_name(set, sample, ".ogg")) {
        Some(i) => return Some(i),
        None => {},
    }
    find_index(entries, &sample_file_name(set, sample, ".mp3"))
}

/// Finds the four hitsounds of sample set `name` among the loaded sounds;
/// `None` where one of them is missing.
pub fn load_sampleset(name: &str, hitsound_indices: &Vec<(String, usize)>) -> (r: Option<
    SamplesetIdx,
>)
    ensures
        r == sampleset_of(index_views(hitsound_indices@), name@),
{
    let hitclap = match load_sample(name, "hitclap", hitsound_indices) {
        Some(i) => i,
        None => return None,
    };
    let hitfinish = match load_sample(name, "hitfinish", hitsound_indices) {
        Some(i) => i,
        None => return None,
    };
    let hitnormal = match load_sample(name, "hitnormal", hitsound_indices) {
        Some(i) => i,
        None => return None,
    };
    let hitwhistle = match load_sample(name, "hitwhistle", hitsound_indices) {
        Some(i) => i,
        None => return None,
    };
    Some(SamplesetIdx { hitclap, hitfinish, hitnormal, hitwhistle })
}

/// The trimmed, non-empty pieces of a list of texts.
pub open spec fn nonempty_trimmed(parts: Seq<Seq<char>>) -> Seq<Seq<char>>
    decreases parts.len(),
{
    if parts.len() == 0 {
        Seq::empty()
    } else {
        let prev = nonempty_trimmed(parts.drop_last());
        if trim(parts.last()).len() == 0 {
            prev
        } else {
            prev.push(trim(parts.last()))
        }
    }
}

/// The value of a key in a section of a `.osu` text, where the section is
/// there and its lines are `Key:Value` pairs.
pub open spec fn section_value(text: Seq<char>, section: Seq<char>, key: Seq<char>) -> Option<
    Seq<char>,
> {
    match section_body(text, section) {
        Some(b) => match key_value_pairs(b) {
            Some(p) => lookup(p, key),
            None => None,
        },
        None => None,
    }
}

/// The bookmark times of a `.osu` text, as the texts between the commas of
/// `Bookmarks` in `[Editor]`; none where there is no such value.
pub open spec fn editor_bookmarks(text: Seq<char>) -> Seq<Seq<char>> {
    match section_value(text, "Editor"@, "Bookmarks"@) {
        Some(v) => nonempty_trimmed(split(v, ',')),
        None => Seq::empty(),
    }
}

fn section_value_of(osu_text: &str, section: &str, key: &str) -> (r: Option<String>)
    ensures
        r is Some <==> section_value(osu_text@, section@, key@) is Some,
        r matches Some(v) ==> section_value(osu_text@, section@, key@) == Some(v@),
{
    let body = match get_section(osu_text, section) {
        Some(b) => b,
        None => return None,
    };
    let pairs = match get_key_value_pairs(body) {
        Some(p) => p,
        None => return None,
    };
    pairs.get(key)
}

/// The texts of the bookmark times in the `[Editor]` section of a `.osu` text.
pub fn editor_bookmark_texts(osu_text: &str) -> (r: Vec<String>)
    ensures
        r@.map_values(|s: String| s@) == editor_bookmarks(osu_text@),
{
    let value = match section_value_of(osu_text, "Editor", "Bookmarks") {
        Some(v) => v,
        None => {
            let r: Vec<String> = Vec::new();
            assert(r@.map_values(|s: String| s@) =~= Seq::<Seq<char>>::empty());
            return r;
        },
    };
    let parts = split_vec(&chars_of(value.as_str()), ',');
    let ghost ps = split(value@, ',');
    let mut out: Vec<String> = Vec::new();
    let mut i: usize = 0;
    while i < parts.len()
        invariant
            i <= parts.len(),
            crate::text::views(parts@) == ps,
            out@.map_values(|s: String| s@) == nonempty_trimmed(ps.take(i as int)),
        decreases parts.len() - i,
    {
        assert(ps.take(i + 1).drop_last() =~= ps.take(i as int));
        assert(ps.take(i + 1).last() == parts@[i as int]@);
        let t = trim_vec(&parts[i]);
        if t.len() > 0 {
            let ghost before = out@;
            out.push(string_of(&t));
            assert(out@.map_values(|s: String| s@) =~= before.map_values(|s: String| s@).push(t@));
        }
        i += 1;
    }
    assert(ps.take(i as int) =~= ps);
    out
}

/// Whether the `Version` in the `[Metadata]` of a `.osu` text, trimmed, is
/// `version`.
pub open spec fn has_version(text: Seq<char>, version: Seq<char>) -> bool {
    match section_value(text, "Metadata"@, "Version"@) {
        Some(v) => trim(v) == version,
        None => false,
    }
}

/// Whether a `.osu` text is the difficulty named `version`.
pub fn osu_text_has_version(osu_text: &str, version: &str) -> (r: bool)
    ensures
        r == has_version(osu_text@, version@),
{
    match section_value_of(osu_text, "Metadata", "Version") {
        Some(v) => {
            let t = trim_vec(&chars_of(v.as_str()));
            same_text(&t, &chars_of(version))
        },
        None => false,
    }
}

/// A `.osu` text is at most one difficulty: two versions that it has are the
/// same text (so "Hard Insane" is not also "Hard").
pub proof fn lemma_one_version(text: Seq<char>, v: Seq<char>, w: Seq<char>)
    requires
        has_version(text, v),
        has_version(text, w),
    ensures
        v == w,
{
}

/// A `.osu` text with a `Version` in its `[Metadata]` has exactly that value,
/// trimmed, as its version; one without has none.
pub proof fn lemma_version_is_metadata_value(text: Seq<char>, v: Seq<char>)
    ensures
        has_version(text, v) <==> (section_value(text, "Metadata"@, "Version"@) matches Some(value)
            && trim(value).len() == v.len() && forall|i: int|
            0 <= i < v.len() ==> trim(value)[i] == #[trigger] v[i]),
{
    if let Some(value) = section_value(text, "Metadata"@, "Version"@) {
        if trim(value).len() == v.len() && forall|i: int|
            0 <= i < v.len() ==> trim(value)[i] == #[trigger] v[i] {
            assert(trim(value) =~= v);
        }
    }
}

} // verus!
