//! Reading back a whole `.osu` file that the writer writes: each section is
//! found under its header, line for line as it was written.
use vstd::prelude::*;
use crate::text::{
    find, first_index, is_ws, lead_ws, lemma_find, lemma_first_index, lemma_first_index_props,
    lemma_lead_ws_char,
    lemma_trail_ws_char, lines, occurs_at, strip_cr, trail_ws, trim, trim_end, trim_start,
};
use crate::dotosu::helpers::{section_body, section_header};
use crate::dotosu::objects_roundtrip::free_of;
use crate::dotosu::roundtrip::{
    clean_value, colour_clean, colour_value, is_trimmed, lemma_int_text_clean, lemma_lines_append,
    metadata_clean, one_line,
};
use crate::dotosu::general::{flag_text, general_text, GeneralSection};
use crate::dotosu::metadata::{metadata_text, MetadataSection};
use crate::dotosu::difficulty::{difficulty_text, DifficultySection};
use crate::dotosu::colours::{colour_line, colours_text, Colour};
use crate::text::int_text;
use crate::dotosu::roundtrip::{lemma_timing_point_roundtrip, timing_line, timing_point_clean};
use crate::dotosu::timing::{timing_point_text, timing_points_text, TimingPoint};
use crate::dotosu::objects_roundtrip::{hit_object_clean, lemma_hit_object_roundtrip, object_line};
use crate::dotosu::objects::{hit_object_text, hit_objects_text, HitObject};
use crate::dotosu::events::{event_nesting_fits, events_text, Event};
use crate::dotosu::events_layout::{
    event_clean, lemma_events_roundtrip, lemma_events_text_layout, lemma_section_lines_trimmed,
    same_event, section_layout, written_lines,
};
use crate::dotosu::osu_file::{
    body_accepted, has_all_sections, osu_file_text, sections_match, OsuFile, OsuSections,
};
use crate::dotosu::roundtrip::{
    colour_pairs, difficulty_pairs, general_pairs, lemma_colours_roundtrip,
    lemma_difficulty_roundtrip, lemma_general_roundtrip, lemma_metadata_roundtrip,
    lemma_timing_roundtrip, metadata_fields_of, metadata_pairs,
};
use crate::dotosu::objects_roundtrip::lemma_hit_objects_roundtrip;
use crate::dotosu::helpers::{key_value_pairs, lookup};
use crate::dotosu::general::{general_accepted, general_matches};
use crate::dotosu::difficulty::{difficulty_accepted, difficulty_matches};
use crate::dotosu::colours::colours_section_ok;
use crate::dotosu::timing::timing_section_ok;
use crate::dotosu::objects::objects_section_ok;
use crate::dotosu::events::events_section_ok;
use crate::dotosu::metadata::{has_required_metadata, metadata_fields_match};
use crate::dotosu::colours::{colour_matches, combo_count_is, combo_key};
use crate::dotosu::timing::timing_points_match;
use crate::dotosu::objects::hit_objects_match;
use crate::dotosu::events::{event_contents, event_lines_match, events_match, EventLine};
use crate::text::content_lines;
use vstd::utf8::{decode_utf8, encode_utf8, encode_utf8_decode_utf8, encode_utf8_valid_utf8, valid_utf8};
use crate::dotosu::events_layout::{lemma_lines_of_text, text_of_lines};

use crate::float_syntax::float_text;

verus! {

/// Lines on one line, not empty, without whitespace at their ends.
pub open spec fn trimmed_lines(ls: Seq<Seq<char>>) -> bool {
    forall|i: int|
        0 <= i < ls.len() ==> one_line(#[trigger] ls[i]) && is_trimmed(ls[i]) && ls[i].len() > 0
}

/// A line without whitespace at its ends ends in no `\r`.
proof fn lemma_trimmed_strip_cr(l: Seq<char>)
    requires
        is_trimmed(l),
    ensures
        strip_cr(l) == l,
{
    assert(is_ws('\r'));
}

/// The text of trimmed lines, without its last line break, is trimmed, and its
/// lines are those lines.
pub proof fn lemma_trimmed_text(ls: Seq<Seq<char>>)
    requires
        trimmed_lines(ls),
        ls.len() > 0,
    ensures
        text_of_lines(ls).len() >= 2,
        text_of_lines(ls).last() == '\n',
        is_trimmed(text_of_lines(ls).drop_last()),
        lines(text_of_lines(ls).drop_last()) == ls,
        lines(text_of_lines(ls)) == ls,
    decreases ls.len(),
{
    let init = ls.drop_last();
    let last = ls.last();
    let t = text_of_lines(ls);
    let ti = text_of_lines(init);
    assert(trimmed_lines(init)) by {
        assert forall|i: int| 0 <= i < init.len() implies one_line(#[trigger] init[i]) && is_trimmed(
            init[i],
        ) && init[i].len() > 0 by {
            assert(init[i] == ls[i]);
        }
    }
    assert forall|i: int| 0 <= i < ls.len() implies one_line(#[trigger] ls[i]) && strip_cr(ls[i])
        == ls[i] by {
        lemma_trimmed_strip_cr(ls[i]);
    }
    lemma_lines_of_text(ls);
    assert(t == ti + last + seq!['\n']);
    assert(t.drop_last() =~= ti + last);
    assert(one_line(last) && is_trimmed(last) && last.len() > 0);
    if init.len() > 0 {
        lemma_trimmed_text(init);
        assert(ti.len() > 0 && ti.last() == '\n');
    } else {
        assert(ti.len() == 0);
    }
    // Trimmed: the first character is that of the first line, the last that of
    // the last line.
    let d = t.drop_last();
    assert(d.last() == last.last());
    if init.len() > 0 {
        assert(d[0] == ti[0]);
        assert(ti[0] == ti.drop_last()[0]);
    } else {
        assert(d[0] == last[0]);
    }
    // The lines.
    assert forall|i: int| 0 <= i < init.len() implies one_line(#[trigger] init[i]) && strip_cr(
        init[i],
    ) == init[i] by {
        lemma_trimmed_strip_cr(init[i]);
    }
    lemma_lines_of_text(init);
    lemma_lines_append(ti, last);
    lemma_first_index(last, '\n', last.len() as int);
    assert(lines(last) == seq![last]);
    assert(init + seq![last] =~= ls);
}

/// Trimming a section written between line breaks: its text without the last
/// line break, or nothing where it is empty.
pub proof fn lemma_wrapped_trim(s: Seq<char>)
    requires
        s.len() == 0 || (s.len() >= 2 && s.last() == '\n' && is_trimmed(s.drop_last())),
    ensures
        s.len() == 0 ==> trim(seq!['\n'] + s + seq!['\n']) == s,
        s.len() > 0 ==> trim(seq!['\n'] + s + seq!['\n']) == s.drop_last(),
{
    let raw = seq!['\n'] + s + seq!['\n'];
    assert(is_ws('\n'));
    if s.len() == 0 {
        assert(raw =~= seq!['\n', '\n']);
        lemma_lead_ws_char(raw, 2);
        assert(trim_start(raw) =~= Seq::<char>::empty());
        assert(trim(raw) =~= s);
    } else {
        let d = s.drop_last();
        assert(raw[1] == d[0]);
        lemma_lead_ws_char(raw, 1);
        let x = trim_start(raw);
        assert(x =~= s + seq!['\n']);
        assert(x[x.len() - 1] == '\n');
        assert(x[x.len() - 2] == s.last());
        assert(x[x.len() - 3] == d.last());
        lemma_trail_ws_char(x, 2);
        assert(trim_end(x) =~= d);
    }
}

/// Every `[` of `s` is followed, within `s`, by a character other than `c`: no
/// header of a section whose name starts with `c` starts in `s`.
pub open spec fn no_header_start(s: Seq<char>, c: char) -> bool {
    forall|i: int| 0 <= i < s.len() && #[trigger] s[i] == '[' ==> i + 1 < s.len() && s[i + 1] != c
}

proof fn lemma_no_header_start_append(a: Seq<char>, b: Seq<char>, c: char)
    requires
        no_header_start(a, c),
        no_header_start(b, c),
    ensures
        no_header_start(a + b, c),
{
    let s = a + b;
    assert forall|i: int| 0 <= i < s.len() && #[trigger] s[i] == '[' implies i + 1 < s.len() && s[i
        + 1] != c by {
        if i < a.len() {
            assert(s[i] == a[i]);
            assert(s[i + 1] == a[i + 1]);
        } else {
            assert(s[i] == b[i - a.len()]);
            assert(s[i + 1] == b[i + 1 - a.len()]);
        }
    }
}

/// A section under its header: the header, a line break, the section's text
/// and a line break.
pub open spec fn section_block(name: Seq<char>, s: Seq<char>) -> Seq<char> {
    section_header(name) + seq!['\n'] + s + seq!['\n']
}

/// The sections, each under its header, in order.
pub open spec fn section_blocks(secs: Seq<(Seq<char>, Seq<char>)>) -> Seq<char>
    decreases secs.len(),
{
    if secs.len() == 0 {
        seq![]
    } else {
        section_block(secs[0].0, secs[0].1) + section_blocks(secs.drop_first())
    }
}

/// Names and texts that can be told apart: names not empty and without `[`,
/// their first letters all different, texts without `[`.
pub open spec fn distinct_sections(secs: Seq<(Seq<char>, Seq<char>)>) -> bool {
    &&& forall|k: int| 0 <= k < secs.len() ==> (#[trigger] secs[k]).0.len() >= 1 && free_of(secs[k].0, '[')
        && free_of(secs[k].1, '[')
    &&& forall|k: int, m: int|
        0 <= k < secs.len() && 0 <= m < secs.len() && k != m ==> (#[trigger] secs[k]).0[0] != (
        #[trigger] secs[m]).0[0]
}

/// No other section's header starts in a section's block.
proof fn lemma_block_no_start(name: Seq<char>, s: Seq<char>, c: char)
    requires
        name.len() >= 1,
        free_of(name, '['),
        free_of(s, '['),
        name[0] != c,
    ensures
        no_header_start(section_block(name, s), c),
{
    let b = section_block(name, s);
    let h = section_header(name);
    assert forall|i: int| 0 <= i < b.len() && #[trigger] b[i] == '[' implies i + 1 < b.len() && b[i
        + 1] != c by {
        if i == 0 {
            assert(b[1] == name[0]);
        } else if i <= name.len() {
            assert(b[i] == name[i - 1]);
        } else if i == name.len() + 1 {
            assert(b[i] == ']');
        } else if i == name.len() + 2 {
            assert(b[i] == '\n');
        } else if i < name.len() + 3 + s.len() {
            assert(b[i] == s[i - name.len() - 3]);
        } else {
            assert(b[i] == '\n');
        }
    }
}

/// The blocks of sections whose names start with other letters than `c`.
proof fn lemma_blocks_no_start(secs: Seq<(Seq<char>, Seq<char>)>, c: char)
    requires
        forall|k: int| 0 <= k < secs.len() ==> (#[trigger] secs[k]).0.len() >= 1 && free_of(secs[k].0, '[')
            && free_of(secs[k].1, '[') && secs[k].0[0] != c,
    ensures
        no_header_start(section_blocks(secs), c),
    decreases secs.len(),
{
    if secs.len() > 0 {
        let rest = secs.drop_first();
        assert forall|k: int| 0 <= k < rest.len() implies (#[trigger] rest[k]).0.len() >= 1 && free_of(
            rest[k].0,
            '[',
        ) && free_of(rest[k].1, '[') && rest[k].0[0] != c by {
            assert(rest[k] == secs[k + 1]);
        }
        lemma_blocks_no_start(rest, c);
        assert(secs[0].0.len() >= 1);
        lemma_block_no_start(secs[0].0, secs[0].1, c);
        lemma_no_header_start_append(section_block(secs[0].0, secs[0].1), section_blocks(rest), c);
    }
}

/// The blocks are those before section `k`, its own, and those after it.
proof fn lemma_blocks_split(secs: Seq<(Seq<char>, Seq<char>)>, k: int)
    requires
        0 <= k < secs.len(),
    ensures
        section_blocks(secs) == section_blocks(secs.take(k)) + section_block(secs[k].0, secs[k].1)
            + section_blocks(secs.skip(k + 1)),
    decreases k,
{
    if k == 0 {
        assert(secs.take(0) =~= Seq::<(Seq<char>, Seq<char>)>::empty());
        assert(secs.skip(1) =~= secs.drop_first());
        assert(section_blocks(secs) =~= section_blocks(secs.take(k)) + section_block(
            secs[k].0,
            secs[k].1,
        ) + section_blocks(secs.skip(k + 1)));
    } else {
        let rest = secs.drop_first();
        lemma_blocks_split(rest, k - 1);
        assert(rest[k - 1] == secs[k]);
        assert(rest.skip(k) =~= secs.skip(k + 1));
        assert(secs.take(k).drop_first() =~= rest.take(k - 1));
        assert(secs.take(k)[0] == secs[0]);
        assert(section_blocks(secs.take(k)) == section_block(secs[0].0, secs[0].1) + section_blocks(
            rest.take(k - 1),
        ));
        assert(section_blocks(secs) =~= section_blocks(secs.take(k)) + section_block(
            secs[k].0,
            secs[k].1,
        ) + section_blocks(secs.skip(k + 1)));
    }
}

/// Blocks start with a header, where there are any.
proof fn lemma_blocks_start(secs: Seq<(Seq<char>, Seq<char>)>)
    ensures
        section_blocks(secs).len() == 0 || section_blocks(secs)[0] == '[',
{
    if secs.len() > 0 {
        assert(section_blocks(secs)[0] == section_block(secs[0].0, secs[0].1)[0]);
    }
}

/// The body of a section found after a text with no start of its header, with
/// another header or nothing after it.
proof fn lemma_section_found(
    text: Seq<char>,
    p: Seq<char>,
    name: Seq<char>,
    s: Seq<char>,
    rest: Seq<char>,
)
    requires
        text == p + section_block(name, s) + rest,
        name.len() >= 1,
        free_of(name, '['),
        no_header_start(p, name[0]),
        free_of(s, '['),
        rest.len() == 0 || rest[0] == '[',
    ensures
        section_body(text, name) == Some(trim(seq!['\n'] + s + seq!['\n'])),
{
    let h = section_header(name);
    let i = p.len() as int;
    assert(text.subrange(i, i + h.len()) =~= h);
    assert(occurs_at(text, h, i));
    assert forall|j: int| 0 <= j < i implies !#[trigger] occurs_at(text, h, j) by {
        if occurs_at(text, h, j) {
            assert(text.subrange(j, j + h.len())[0] == h[0]);
            assert(text[j] == p[j]);
            if j + 1 < i {
                assert(text.subrange(j, j + h.len())[1] == h[1]);
                assert(text[j + 1] == p[j + 1]);
            }
        }
    }
    lemma_find(text, h, i);
    let start = i + h.len();
    let after = text.skip(start);
    let m = s.len() + 2int;
    assert(after =~= seq!['\n'] + s + seq!['\n'] + rest);
    assert forall|k: int| 0 <= k < m implies #[trigger] after[k] != '[' by {
        if k >= 1 && k <= s.len() {
            assert(after[k] == s[k - 1]);
        }
    }
    lemma_first_index(after, '[', m);
    if rest.len() > 0 {
        assert(after[m] == rest[0]);
    }
    assert(text.subrange(start, start + m) =~= seq!['\n'] + s + seq!['\n']);
}

/// Section `k` of a text made of a preamble without headers and the blocks of
/// sections that can be told apart is found with its own text.
pub proof fn lemma_blocks_section(pre: Seq<char>, secs: Seq<(Seq<char>, Seq<char>)>, k: int)
    requires
        0 <= k < secs.len(),
        distinct_sections(secs),
        free_of(pre, '['),
    ensures
        section_body(pre + section_blocks(secs), secs[k].0) == Some(
            trim(seq!['\n'] + secs[k].1 + seq!['\n']),
        ),
{
    let name = secs[k].0;
    let c = name[0];
    let before = secs.take(k);
    let after = secs.skip(k + 1);
    lemma_blocks_split(secs, k);
    assert forall|j: int| 0 <= j < before.len() implies (#[trigger] before[j]).0.len() >= 1 && free_of(
        before[j].0,
        '[',
    ) && free_of(before[j].1, '[') && before[j].0[0] != c by {
        assert(before[j] == secs[j]);
    }
    lemma_blocks_no_start(before, c);
    assert(no_header_start(pre, c));
    lemma_no_header_start_append(pre, section_blocks(before), c);
    lemma_blocks_start(after);
    assert(pre + section_blocks(secs) =~= (pre + section_blocks(before)) + section_block(
        name,
        secs[k].1,
    ) + section_blocks(after));
    lemma_section_found(
        pre + section_blocks(secs),
        pre + section_blocks(before),
        name,
        secs[k].1,
        section_blocks(after),
    );
}

/// A line break after text whose last line is not empty adds no line.
pub proof fn lemma_lines_drop_newline(a: Seq<char>)
    requires
        a.len() > 0,
        a.last() != '\n',
        a.last() != '\r',
    ensures
        lines(a + seq!['\n']) == lines(a),
    decreases a.len(),
{
    let s = a + seq!['\n'];
    lemma_first_index_props(a, '\n');
    match first_index(a, '\n') {
        Some(k) => {
            assert forall|i: int| 0 <= i < k implies #[trigger] s[i] != '\n' by {
                assert(s[i] == a[i]);
            }
            assert(s[k] == a[k]);
            lemma_first_index(s, '\n', k);
            let r = a.skip(k + 1);
            assert(k + 1 < a.len());
            assert(r.last() == a.last());
            lemma_lines_drop_newline(r);
            assert(s.skip(k + 1) =~= r + seq!['\n']);
            assert(s.take(k) =~= a.take(k));
        },
        None => {
            assert forall|i: int| 0 <= i < a.len() implies #[trigger] s[i] != '\n' by {
                assert(s[i] == a[i]);
            }
            lemma_first_index(s, '\n', a.len() as int);
            assert(s.take(a.len() as int) =~= a);
            assert(s.skip(a.len() + 1int) =~= Seq::<char>::empty());
            assert(lines(Seq::<char>::empty()) =~= Seq::<Seq<char>>::empty());
        },
    }
}

/// A section's text as the writer gives it: nothing, or lines ended by line
/// breaks that start and end with no whitespace.
pub open spec fn section_shaped(s: Seq<char>) -> bool {
    s.len() == 0 || (s.len() >= 2 && s.last() == '\n' && !is_ws(s[0]) && !is_ws(s[s.len() - 2]))
}

/// The body found for a section written between line breaks has the lines
/// of the section's text.
pub proof fn lemma_wrapped_section(s: Seq<char>)
    requires
        section_shaped(s),
    ensures
        lines(trim(seq!['\n'] + s + seq!['\n'])) == lines(s),
{
    if s.len() > 0 {
        let d = s.drop_last();
        assert(d[0] == s[0]);
        assert(d.last() == s[s.len() - 2]);
        assert(is_ws('\n') && is_ws('\r'));
        lemma_wrapped_trim(s);
        lemma_lines_drop_newline(d);
        assert(d + seq!['\n'] =~= s);
    } else {
        lemma_wrapped_trim(s);
    }
}

/// The text of trimmed lines is shaped as a section.
pub proof fn lemma_trimmed_text_shaped(ls: Seq<Seq<char>>)
    requires
        trimmed_lines(ls),
    ensures
        section_shaped(text_of_lines(ls)),
{
    if ls.len() > 0 {
        lemma_trimmed_text(ls);
        let t = text_of_lines(ls);
        let d = t.drop_last();
        assert(d[0] == t[0]);
        assert(d.last() == t[t.len() - 2]);
    } else {
        assert(text_of_lines(ls).len() == 0);
    }
}

/// The `[General]` text is shaped as a section: it starts with a key and ends
/// with a flag.
proof fn lemma_general_shaped(g: GeneralSection)
    ensures
        section_shaped(general_text(g)),
{
    reveal_strlit("AudioFilename:");
    reveal_strlit("\n");
    reveal_strlit("1");
    reveal_strlit("0");
    let t = general_text(g);
    let f = flag_text(g.widescreen_storyboard);
    assert(f.len() == 1);
    assert(t[0] == 'A');
    assert(t.last() == '\n');
    assert(t[t.len() - 2] == f[0]);
}

/// The `[Metadata]` text is shaped as a section: it starts with a key and ends
/// with a number.
proof fn lemma_metadata_shaped(m: MetadataSection)
    ensures
        section_shaped(metadata_text(m)),
{
    reveal_strlit("Title:");
    reveal_strlit("\n");
    let t = metadata_text(m);
    let n = int_text(m.beatmapset_id as int);
    lemma_int_text_clean(m.beatmapset_id as int);
    assert(t[0] == 'T');
    assert(t.last() == '\n');
    assert(t[t.len() - 2] == n.last());
}

/// The `[Difficulty]` text is shaped as a section where its last value has no
/// whitespace at its ends.
proof fn lemma_difficulty_shaped(d: DifficultySection)
    requires
        clean_value(d.slider_tick_rate@) && float_text(d.slider_tick_rate@),
    ensures
        section_shaped(difficulty_text(d)),
{
    reveal_strlit("HPDrainRate:");
    reveal_strlit("SliderTickRate:");
    reveal_strlit("\n");
    let t = difficulty_text(d);
    let v = d.slider_tick_rate@;
    assert(t[0] == 'H');
    assert(t.last() == '\n');
    if v.len() > 0 {
        assert(t[t.len() - 2] == v.last());
    } else {
        assert(t[t.len() - 2] == ':');
    }
}

/// The `[Colours]` text of clean colours is shaped as a section: its lines
/// start with `Combo` and end with a channel or a comma.
proof fn lemma_colours_shaped(cs: Seq<Colour>)
    requires
        forall|i: int| 0 <= i < cs.len() ==> colour_clean(#[trigger] cs[i]),
    ensures
        section_shaped(colours_text(cs)),
        cs.len() > 0 ==> colours_text(cs)[0] == 'C',
    decreases cs.len(),
{
    if cs.len() > 0 {
        reveal_strlit("Combo");
        reveal_strlit(" : ");
        reveal_strlit(",");
        reveal_strlit("\n");
        let init = cs.drop_last();
        assert forall|i: int| 0 <= i < init.len() implies colour_clean(#[trigger] init[i]) by {
            assert(init[i] == cs[i]);
        }
        lemma_colours_shaped(init);
        let c = cs.last();
        assert(colour_clean(c));
        let l = colour_line((cs.len() - 1) as nat, c);
        let t = colours_text(cs);
        let ti = colours_text(init);
        assert(t == ti + l);
        assert(l[0] == 'C');
        if ti.len() > 0 {
            assert(t[0] == ti[0]);
        } else {
            assert(t[0] == l[0]);
        }
        assert(l.last() == '\n');
        let b = c.b@;
        if b.len() > 0 {
            assert(l[l.len() - 2] == b.last());
            assert(t[t.len() - 2] == l[l.len() - 2]);
        } else {
            assert(l[l.len() - 2] == ',');
            assert(t[t.len() - 2] == l[l.len() - 2]);
        }
    }
}

/// The lines of the timing points.
pub open spec fn timing_lines(ps: Seq<TimingPoint>) -> Seq<Seq<char>> {
    ps.map_values(|tp: TimingPoint| timing_line(tp))
}

/// The `[TimingPoints]` text of clean points is the text of their lines,
/// which are trimmed.
proof fn lemma_timing_text_lines(ps: Seq<TimingPoint>)
    requires
        forall|i: int| 0 <= i < ps.len() ==> timing_point_clean(#[trigger] ps[i]),
    ensures
        timing_points_text(ps) == text_of_lines(timing_lines(ps)),
        trimmed_lines(timing_lines(ps)),
    decreases ps.len(),
{
    let ls = timing_lines(ps);
    if ps.len() == 0 {
        assert(ls.len() == 0);
    } else {
        let init = ps.drop_last();
        assert forall|i: int| 0 <= i < init.len() implies timing_point_clean(#[trigger] init[i]) by {
            assert(init[i] == ps[i]);
        }
        lemma_timing_text_lines(init);
        assert(ls.drop_last() =~= timing_lines(init));
        assert(timing_point_clean(ps.last()));
        lemma_timing_point_roundtrip(ps.last());
        assert(ls.last() == timing_line(ps.last()));
        assert forall|i: int| 0 <= i < ls.len() implies one_line(#[trigger] ls[i]) && is_trimmed(ls[i])
            && ls[i].len() > 0 by {
            assert(timing_point_clean(ps[i]));
            lemma_timing_point_roundtrip(ps[i]);
        }
    }
}

/// The lines of the hit objects.
pub open spec fn object_lines(os: Seq<HitObject>) -> Seq<Seq<char>> {
    os.map_values(|o: HitObject| object_line(o))
}

/// The `[HitObjects]` text of clean objects is the text of their lines, which
/// are trimmed.
proof fn lemma_objects_text_lines(os: Seq<HitObject>)
    requires
        forall|i: int| 0 <= i < os.len() ==> hit_object_clean(#[trigger] os[i]),
    ensures
        hit_objects_text(os) == text_of_lines(object_lines(os)),
        trimmed_lines(object_lines(os)),
    decreases os.len(),
{
    let ls = object_lines(os);
    if os.len() == 0 {
        assert(ls.len() == 0);
    } else {
        let init = os.drop_last();
        assert forall|i: int| 0 <= i < init.len() implies hit_object_clean(#[trigger] init[i]) by {
            assert(init[i] == os[i]);
        }
        lemma_objects_text_lines(init);
        assert(ls.drop_last() =~= object_lines(init));
        assert(hit_object_clean(os.last()));
        lemma_hit_object_roundtrip(os.last());
        assert(ls.last() == object_line(os.last()));
        assert forall|i: int| 0 <= i < ls.len() implies one_line(#[trigger] ls[i]) && is_trimmed(ls[i])
            && ls[i].len() > 0 by {
            assert(hit_object_clean(os[i]));
            lemma_hit_object_roundtrip(os[i]);
        }
    }
}

/// The `[Events]` text of clean events is shaped as a section.
proof fn lemma_events_shaped(es: Seq<Event>)
    requires
        forall|i: int| 0 <= i < es.len() ==> event_clean(#[trigger] es[i]) && event_nesting_fits(es[i]),
    ensures
        section_shaped(events_text(es)),
{
    lemma_events_text_layout(es);
    lemma_section_lines_trimmed(es);
    lemma_trimmed_text_shaped(written_lines(section_layout(es)));
}

/// The sections of the file that `OsuFile::to_osu_text` writes, by name and
/// text, in order.
pub open spec fn written_sections(f: OsuFile) -> Seq<(Seq<char>, Seq<char>)> {
    seq![
        ("General"@, general_text(f.general)),
        ("Metadata"@, metadata_text(f.metadata)),
        ("Difficulty"@, difficulty_text(f.difficulty)),
        ("Events"@, events_text(f.events.events@)),
        ("TimingPoints"@, timing_points_text(f.timing.timing_points@)),
        ("Colours"@, colours_text(f.colours.colors@)),
        ("HitObjects"@, hit_objects_text(f.objects.objects@)),
    ]
}

/// A section's name: not empty, without `[`, starting with `c`.
pub open spec fn name_starting(name: Seq<char>, c: char) -> bool {
    name.len() >= 1 && free_of(name, '[') && name[0] == c
}

proof fn lemma_name_general()
    ensures
        name_starting("General"@, 'G'),
{
    reveal_strlit("General");
}

proof fn lemma_name_metadata()
    ensures
        name_starting("Metadata"@, 'M'),
{
    reveal_strlit("Metadata");
}

proof fn lemma_name_difficulty()
    ensures
        name_starting("Difficulty"@, 'D'),
{
    reveal_strlit("Difficulty");
}

proof fn lemma_name_events()
    ensures
        name_starting("Events"@, 'E'),
{
    reveal_strlit("Events");
}

proof fn lemma_name_timing()
    ensures
        name_starting("TimingPoints"@, 'T'),
{
    reveal_strlit("TimingPoints");
}

proof fn lemma_name_colours()
    ensures
        name_starting("Colours"@, 'C'),
{
    reveal_strlit("Colours");
}

proof fn lemma_name_objects()
    ensures
        name_starting("HitObjects"@, 'H'),
{
    reveal_strlit("HitObjects");
}

proof fn lemma_header_lines()
    ensures
        "\n[Metadata]\n"@ == seq!['\n'] + section_header("Metadata"@) + seq!['\n'],
        "\n[Difficulty]\n"@ == seq!['\n'] + section_header("Difficulty"@) + seq!['\n'],
        "\n[Events]\n"@ == seq!['\n'] + section_header("Events"@) + seq!['\n'],
        "\n[TimingPoints]\n"@ == seq!['\n'] + section_header("TimingPoints"@) + seq!['\n'],
        "\n[Colours]\n"@ == seq!['\n'] + section_header("Colours"@) + seq!['\n'],
        "\n[HitObjects]\n"@ == seq!['\n'] + section_header("HitObjects"@) + seq!['\n'],
        "\n"@ == seq!['\n'],
{
    reveal_strlit("\n");
    assert("\n[Metadata]\n"@ == seq!['\n'] + section_header("Metadata"@) + seq!['\n']) by {
        reveal_strlit("\n[Metadata]\n");
        reveal_strlit("Metadata");
        assert("\n[Metadata]\n"@ =~= seq!['\n'] + section_header("Metadata"@) + seq!['\n']);
    }
    assert("\n[Difficulty]\n"@ == seq!['\n'] + section_header("Difficulty"@) + seq!['\n']) by {
        reveal_strlit("\n[Difficulty]\n");
        reveal_strlit("Difficulty");
        assert("\n[Difficulty]\n"@ =~= seq!['\n'] + section_header("Difficulty"@) + seq!['\n']);
    }
    assert("\n[Events]\n"@ == seq!['\n'] + section_header("Events"@) + seq!['\n']) by {
        reveal_strlit("\n[Events]\n");
        reveal_strlit("Events");
        assert("\n[Events]\n"@ =~= seq!['\n'] + section_header("Events"@) + seq!['\n']);
    }
    assert("\n[TimingPoints]\n"@ == seq!['\n'] + section_header("TimingPoints"@) + seq!['\n']) by {
        reveal_strlit("\n[TimingPoints]\n");
        reveal_strlit("TimingPoints");
        assert("\n[TimingPoints]\n"@ =~= seq!['\n'] + section_header("TimingPoints"@) + seq!['\n']);
    }
    assert("\n[Colours]\n"@ == seq!['\n'] + section_header("Colours"@) + seq!['\n']) by {
        reveal_strlit("\n[Colours]\n");
        reveal_strlit("Colours");
        assert("\n[Colours]\n"@ =~= seq!['\n'] + section_header("Colours"@) + seq!['\n']);
    }
    assert("\n[HitObjects]\n"@ == seq!['\n'] + section_header("HitObjects"@) + seq!['\n']) by {
        reveal_strlit("\n[HitObjects]\n");
        reveal_strlit("HitObjects");
        assert("\n[HitObjects]\n"@ =~= seq!['\n'] + section_header("HitObjects"@) + seq!['\n']);
    }
}

/// The file's first line and empty line, then the first header.
proof fn lemma_file_start()
    ensures
        "osu file format v14\n\n[General]\n"@ == "osu file format v14\n\n"@ + section_header(
            "General"@,
        ) + seq!['\n'],
        free_of("osu file format v14\n\n"@, '['),
{
    reveal_strlit("osu file format v14\n\n[General]\n");
    reveal_strlit("osu file format v14\n\n");
    reveal_strlit("General");
    assert("osu file format v14\n\n[General]\n"@ =~= "osu file format v14\n\n"@ + section_header(
        "General"@,
    ) + seq!['\n']);
}

/// A block moved out of a header, its text and the next header.
proof fn lemma_regroup_step(p: Seq<char>, h: Seq<char>, t: Seq<char>, h2: Seq<char>, t2: Seq<char>)
    ensures
        p + h + seq!['\n'] + t + (seq!['\n'] + h2 + seq!['\n']) + t2 == p + (h + seq!['\n'] + t
            + seq!['\n']) + h2 + seq!['\n'] + t2,
{
    assert(p + h + seq!['\n'] + t + (seq!['\n'] + h2 + seq!['\n']) + t2 =~= p + (h + seq!['\n'] + t
        + seq!['\n']) + h2 + seq!['\n'] + t2);
}

proof fn lemma_regroup_last(p: Seq<char>, h: Seq<char>, t: Seq<char>)
    ensures
        p + h + seq!['\n'] + t + seq!['\n'] == p + (h + seq!['\n'] + t + seq!['\n']),
{
    assert(p + h + seq!['\n'] + t + seq!['\n'] =~= p + (h + seq!['\n'] + t + seq!['\n']));
}

proof fn lemma_assoc(p: Seq<char>, x: Seq<char>, b: Seq<char>)
    ensures
        p + x + b == p + (x + b),
{
    assert(p + x + b =~= p + (x + b));
}

/// Seven sections under their headers, regrouped.
proof fn lemma_regroup(pre: Seq<char>, n: Seq<Seq<char>>, t: Seq<Seq<char>>)
    requires
        n.len() == 7,
        t.len() == 7,
    ensures
        pre + section_header(n[0]) + seq!['\n'] + t[0] + (seq!['\n'] + section_header(n[1]) + seq![
            '\n',
        ]) + t[1] + (seq!['\n'] + section_header(n[2]) + seq!['\n']) + t[2] + (seq!['\n']
            + section_header(n[3]) + seq!['\n']) + t[3] + (seq!['\n'] + section_header(n[4]) + seq![
            '\n',
        ]) + t[4] + (seq!['\n'] + section_header(n[5]) + seq!['\n']) + t[5] + (seq!['\n']
            + section_header(n[6]) + seq!['\n']) + t[6] + seq!['\n'] == pre + (section_block(n[0], t[0])
            + section_block(n[1], t[1]) + section_block(n[2], t[2]) + section_block(n[3], t[3])
            + section_block(n[4], t[4]) + section_block(n[5], t[5]) + section_block(n[6], t[6])),
{
    let h = |k: int| section_header(n[k]);
    let b = |k: int| section_block(n[k], t[k]);
    lemma_regroup_step(pre, h(0), t[0], h(1), t[1]);
    lemma_regroup_step(pre + b(0), h(1), t[1], h(2), t[2]);
    lemma_regroup_step(pre + b(0) + b(1), h(2), t[2], h(3), t[3]);
    lemma_regroup_step(pre + b(0) + b(1) + b(2), h(3), t[3], h(4), t[4]);
    lemma_regroup_step(pre + b(0) + b(1) + b(2) + b(3), h(4), t[4], h(5), t[5]);
    lemma_regroup_step(pre + b(0) + b(1) + b(2) + b(3) + b(4), h(5), t[5], h(6), t[6]);
    lemma_regroup_last(pre + b(0) + b(1) + b(2) + b(3) + b(4) + b(5), h(6), t[6]);
    lemma_assoc(pre, b(0), b(1));
    lemma_assoc(pre, b(0) + b(1), b(2));
    lemma_assoc(pre, b(0) + b(1) + b(2), b(3));
    lemma_assoc(pre, b(0) + b(1) + b(2) + b(3), b(4));
    lemma_assoc(pre, b(0) + b(1) + b(2) + b(3) + b(4), b(5));
    lemma_assoc(pre, b(0) + b(1) + b(2) + b(3) + b(4) + b(5), b(6));
}

/// The blocks of seven sections, one after the other.
proof fn lemma_blocks7(w: Seq<(Seq<char>, Seq<char>)>)
    requires
        w.len() == 7,
    ensures
        section_blocks(w) == section_block(w[0].0, w[0].1) + section_block(w[1].0, w[1].1)
            + section_block(w[2].0, w[2].1) + section_block(w[3].0, w[3].1) + section_block(
            w[4].0,
            w[4].1,
        ) + section_block(w[5].0, w[5].1) + section_block(w[6].0, w[6].1),
{
    let b = |k: int| section_block(w[k].0, w[k].1);
    let w1 = w.drop_first();
    let w2 = w1.drop_first();
    let w3 = w2.drop_first();
    let w4 = w3.drop_first();
    let w5 = w4.drop_first();
    let w6 = w5.drop_first();
    let w7 = w6.drop_first();
    assert(w7.len() == 0);
    assert(section_blocks(w7) =~= Seq::<char>::empty());
    assert(section_blocks(w6) =~= b(6));
    assert(section_blocks(w5) == b(5) + section_blocks(w6));
    assert(section_blocks(w4) == b(4) + section_blocks(w5));
    assert(section_blocks(w3) == b(3) + section_blocks(w4));
    assert(section_blocks(w2) == b(2) + section_blocks(w3));
    assert(section_blocks(w1) == b(1) + section_blocks(w2));
    assert(section_blocks(w) == b(0) + section_blocks(w1));
    assert(section_blocks(w) =~= b(0) + b(1) + b(2) + b(3) + b(4) + b(5) + b(6));
}

/// The file's text is its first line, an empty line, and its sections under
/// their headers.
proof fn lemma_file_text_blocks(f: OsuFile)
    ensures
        osu_file_text(f) == "osu file format v14\n\n"@ + section_blocks(written_sections(f)),
{
    lemma_header_lines();
    lemma_file_start();
    let w = written_sections(f);
    let pre = "osu file format v14\n\n"@;
    let n = seq![w[0].0, w[1].0, w[2].0, w[3].0, w[4].0, w[5].0, w[6].0];
    let t = seq![w[0].1, w[1].1, w[2].1, w[3].1, w[4].1, w[5].1, w[6].1];
    lemma_regroup(pre, n, t);
    lemma_blocks7(w);
}

/// The sections of a written file can be told apart where their texts have
/// no `[`.
proof fn lemma_written_sections_distinct(f: OsuFile)
    requires
        forall|k: int| 0 <= k < 7 ==> free_of(#[trigger] written_sections(f)[k].1, '['),
    ensures
        distinct_sections(written_sections(f)),
{
    lemma_name_general();
    lemma_name_metadata();
    lemma_name_difficulty();
    lemma_name_events();
    lemma_name_timing();
    lemma_name_colours();
    lemma_name_objects();
    let w = written_sections(f);
    let letters = seq!['G', 'M', 'D', 'E', 'T', 'C', 'H'];
    assert forall|k: int| 0 <= k < w.len() implies name_starting((#[trigger] w[k]).0, letters[k]) by {
        if k == 0 {
        } else if k == 1 {
        } else if k == 2 {
        } else if k == 3 {
        } else if k == 4 {
        } else if k == 5 {
        } else {
        }
    }
    assert forall|k: int| 0 <= k < w.len() implies (#[trigger] w[k]).0.len() >= 1 && free_of(
        w[k].0,
        '[',
    ) && free_of(w[k].1, '[') by {
        assert(name_starting(w[k].0, letters[k]));
        assert(free_of(written_sections(f)[k].1, '['));
    }
    assert forall|k: int, m: int|
        0 <= k < w.len() && 0 <= m < w.len() && k != m implies (#[trigger] w[k]).0[0] != (
        #[trigger] w[m]).0[0] by {
        assert(name_starting(w[k].0, letters[k]));
        assert(name_starting(w[m].0, letters[m]));
    }
}

/// A file whose sections all read back as written and can be found: the
/// texts of each section are on one line without whitespace at their ends
/// (and, for events and hit objects, without commas; for events, without
/// `//`), no event is a background and commands nest no deeper than
/// indentation can count, and no section's text holds a `[`, which would be
/// read as the start of the next section.
pub open spec fn osu_file_clean(f: OsuFile) -> bool {
    &&& clean_value(f.general.audio_filename@)
    &&& clean_value(f.general.audio_lead_in@) && float_text(f.general.audio_lead_in@)
    &&& clean_value(f.general.sample_set@)
    &&& clean_value(f.general.stack_leniency@) && float_text(f.general.stack_leniency@)
    &&& metadata_clean(f.metadata)
    &&& clean_value(f.difficulty.hp@) && float_text(f.difficulty.hp@)
    &&& clean_value(f.difficulty.cs@) && float_text(f.difficulty.cs@)
    &&& clean_value(f.difficulty.od@) && float_text(f.difficulty.od@)
    &&& clean_value(f.difficulty.ar@) && float_text(f.difficulty.ar@)
    &&& clean_value(f.difficulty.slider_multiplier@) && float_text(f.difficulty.slider_multiplier@)
    &&& clean_value(f.difficulty.slider_tick_rate@) && float_text(f.difficulty.slider_tick_rate@)
    &&& forall|i: int|
        0 <= i < f.events.events@.len() ==> event_clean(#[trigger] f.events.events@[i])
            && event_nesting_fits(f.events.events@[i])
    &&& forall|i: int|
        0 <= i < f.timing.timing_points@.len() ==> timing_point_clean(
            #[trigger] f.timing.timing_points@[i],
        )
    &&& forall|i: int| 0 <= i < f.colours.colors@.len() ==> colour_clean(#[trigger] f.colours.colors@[i])
    &&& forall|i: int|
        0 <= i < f.objects.objects@.len() ==> hit_object_clean(#[trigger] f.objects.objects@[i])
    &&& forall|k: int| 0 <= k < 7 ==> free_of(#[trigger] written_sections(f)[k].1, '[')
}

/// Each section of a clean written file is shaped as a section.
#[verifier::spinoff_prover]
proof fn lemma_written_shaped(f: OsuFile, k: int)
    requires
        osu_file_clean(f),
        0 <= k < 7,
    ensures
        section_shaped(written_sections(f)[k].1),
{
    let w = written_sections(f);
    if k == 0 {
        lemma_general_shaped(f.general);
    } else if k == 1 {
        lemma_metadata_shaped(f.metadata);
    } else if k == 2 {
        lemma_difficulty_shaped(f.difficulty);
    } else if k == 3 {
        lemma_events_shaped(f.events.events@);
    } else if k == 4 {
        lemma_timing_text_lines(f.timing.timing_points@);
        lemma_trimmed_text_shaped(timing_lines(f.timing.timing_points@));
    } else if k == 5 {
        lemma_colours_shaped(f.colours.colors@);
    } else {
        lemma_objects_text_lines(f.objects.objects@);
        lemma_trimmed_text_shaped(object_lines(f.objects.objects@));
    }
}

/// Each section of a clean written file is found with its own text.
#[verifier::spinoff_prover]
#[verifier::rlimit(40)]
proof fn lemma_found_body(f: OsuFile, k: int)
    requires
        osu_file_clean(f),
        0 <= k < 7,
    ensures
        section_body(osu_file_text(f), written_sections(f)[k].0) == Some(
            trim(seq!['\n'] + written_sections(f)[k].1 + seq!['\n']),
        ),
{
    let w = written_sections(f);
    let pre = "osu file format v14\n\n"@;
    lemma_file_text_blocks(f);
    lemma_file_start();
    assert(forall|j: int| 0 <= j < 7 ==> free_of(#[trigger] written_sections(f)[j].1, '['));
    lemma_written_sections_distinct(f);
    lemma_blocks_section(pre, w, k);
}

/// Section `name` of `text` is found, with the lines of `t`.
#[verifier::opaque]
pub open spec fn found_as(text: Seq<char>, name: Seq<char>, t: Seq<char>) -> bool {
    section_body(text, name) matches Some(b) && lines(b) == lines(t)
}

/// Each section of a clean written file is found, line for line as written.
proof fn lemma_found_lines(f: OsuFile, k: int)
    requires
        osu_file_clean(f),
        0 <= k < 7,
    ensures
        found_as(osu_file_text(f), written_sections(f)[k].0, written_sections(f)[k].1),
{
    reveal(found_as);
    let w = written_sections(f);
    lemma_found_body(f, k);
    lemma_written_shaped(f, k);
    lemma_wrapped_section(w[k].1);
}

/// The seven sections of a clean written file are found, each line for line
/// as written.
#[verifier::spinoff_prover]
proof fn lemma_found_all(f: OsuFile)
    requires
        osu_file_clean(f),
    ensures
        found_as(osu_file_text(f), "General"@, general_text(f.general)),
        found_as(osu_file_text(f), "Metadata"@, metadata_text(f.metadata)),
        found_as(osu_file_text(f), "Difficulty"@, difficulty_text(f.difficulty)),
        found_as(osu_file_text(f), "Events"@, events_text(f.events.events@)),
        found_as(osu_file_text(f), "TimingPoints"@, timing_points_text(f.timing.timing_points@)),
        found_as(osu_file_text(f), "Colours"@, colours_text(f.colours.colors@)),
        found_as(osu_file_text(f), "HitObjects"@, hit_objects_text(f.objects.objects@)),
{
    let w = written_sections(f);
    lemma_found_lines(f, 0);
    lemma_found_lines(f, 1);
    lemma_found_lines(f, 2);
    lemma_found_lines(f, 3);
    lemma_found_lines(f, 4);
    lemma_found_lines(f, 5);
    lemma_found_lines(f, 6);
    assert(w[0].0 == "General"@ && w[0].1 == general_text(f.general));
    assert(w[1].0 == "Metadata"@ && w[1].1 == metadata_text(f.metadata));
    assert(w[2].0 == "Difficulty"@ && w[2].1 == difficulty_text(f.difficulty));
    assert(w[3].0 == "Events"@ && w[3].1 == events_text(f.events.events@));
    assert(w[4].0 == "TimingPoints"@ && w[4].1 == timing_points_text(f.timing.timing_points@));
    assert(w[5].0 == "Colours"@ && w[5].1 == colours_text(f.colours.colors@));
    assert(w[6].0 == "HitObjects"@ && w[6].1 == hit_objects_text(f.objects.objects@));
}

/// Reading back the file that `OsuFile::to_osu_text` writes gives back the
/// file, where it is clean (see `osu_file_clean`): its UTF-8 bytes decode to
/// its text, all seven sections are found, every section is accepted, and each reads back as what was written
/// (the metadata as its fields, with the ids as given; the events as the
/// events written, each with its commands nested as they were).
#[verifier::spinoff_prover]
pub proof fn lemma_osu_file_roundtrip(
    f: OsuFile,
    s: OsuSections,
    els: Seq<EventLine>,
    evs: Seq<Event>,
)
    requires
        osu_file_clean(f),
    ensures
        valid_utf8(encode_utf8(osu_file_text(f))),
        decode_utf8(encode_utf8(osu_file_text(f))) == osu_file_text(f),
        has_all_sections(osu_file_text(f)),
        sections_match(s, osu_file_text(f)) ==> body_accepted(s) && key_value_pairs(s.metadata@)
            == Some(metadata_pairs(f.metadata)) && has_required_metadata(metadata_pairs(f.metadata))
            && metadata_fields_match(metadata_fields_of(f.metadata), metadata_pairs(f.metadata))
            && general_matches(f.general, key_value_pairs(s.general@).unwrap()) && difficulty_matches(
            f.difficulty,
            key_value_pairs(s.difficulty@).unwrap(),
        ) && timing_points_match(f.timing.timing_points@, content_lines(lines(s.timing@)))
            && combo_count_is(key_value_pairs(s.colours@).unwrap(), f.colours.colors@.len())
            && (forall|k: int|
            0 <= k < f.colours.colors@.len() ==> colour_matches(
                #[trigger] f.colours.colors@[k],
                lookup(key_value_pairs(s.colours@).unwrap(), combo_key((k + 1) as nat)).unwrap(),
            )) && hit_objects_match(f.objects.objects@, content_lines(lines(s.objects@))),
        sections_match(s, osu_file_text(f)) && event_lines_match(els, event_contents(lines(s.events@)))
            && events_match(evs, els) ==> evs.len() == f.events.events@.len() && forall|i: int|
            0 <= i < evs.len() ==> same_event(#[trigger] evs[i], f.events.events@[i]),
{
    let text = osu_file_text(f);
    encode_utf8_valid_utf8(text);
    encode_utf8_decode_utf8(text);
    lemma_found_all(f);
    lemma_file_general(text, s, f.general);
    lemma_file_metadata(text, s, f.metadata);
    lemma_file_difficulty(text, s, f.difficulty);
    lemma_file_events(text, s, f.events.events@, els, evs);
    lemma_file_timing(text, s, f.timing.timing_points@);
    lemma_file_colours(text, s, f.colours.colors@);
    lemma_file_objects(text, s, f.objects.objects@);
}

/// A text with the lines of the written `[General]` section reads as it.
proof fn lemma_general_body(g: GeneralSection, body: Seq<char>)
    requires
        clean_value(g.audio_filename@),
        clean_value(g.audio_lead_in@) && float_text(g.audio_lead_in@),
        clean_value(g.sample_set@),
        clean_value(g.stack_leniency@) && float_text(g.stack_leniency@),
        lines(body) == lines(general_text(g)),
    ensures
        key_value_pairs(body) == Some(general_pairs(g)),
        general_accepted(general_pairs(g)),
        general_matches(g, general_pairs(g)),
{
    lemma_general_roundtrip(g);
}

proof fn lemma_file_general(text: Seq<char>, s: OsuSections, g: GeneralSection)
    requires
        clean_value(g.audio_filename@),
        clean_value(g.audio_lead_in@) && float_text(g.audio_lead_in@),
        clean_value(g.sample_set@),
        clean_value(g.stack_leniency@) && float_text(g.stack_leniency@),
        found_as(text, "General"@, general_text(g)),
    ensures
        section_body(text, "General"@) is Some,
        sections_match(s, text) ==> key_value_pairs(s.general@) == Some(
            general_pairs(g),
        ) && general_accepted(general_pairs(g)) && general_matches(
            g,
            general_pairs(g),
        ),
{
    reveal(found_as);
    if sections_match(s, text) {
        lemma_general_body(g, s.general@);
    }
}

/// A text with the lines of the written `[Metadata]` section reads as it.
proof fn lemma_metadata_body(m: MetadataSection, body: Seq<char>)
    requires
        metadata_clean(m),
        lines(body) == lines(metadata_text(m)),
    ensures
        key_value_pairs(body) == Some(metadata_pairs(m)),
        has_required_metadata(metadata_pairs(m)),
        metadata_fields_match(metadata_fields_of(m), metadata_pairs(m)),
{
    lemma_metadata_roundtrip(m);
}

proof fn lemma_file_metadata(text: Seq<char>, s: OsuSections, m: MetadataSection)
    requires
        metadata_clean(m),
        found_as(text, "Metadata"@, metadata_text(m)),
    ensures
        section_body(text, "Metadata"@) is Some,
        sections_match(s, text) ==> key_value_pairs(s.metadata@) == Some(
            metadata_pairs(m),
        ) && has_required_metadata(metadata_pairs(m)) && metadata_fields_match(
            metadata_fields_of(m),
            metadata_pairs(m),
        ),
{
    reveal(found_as);
    if sections_match(s, text) {
        lemma_metadata_body(m, s.metadata@);
    }
}

/// A text with the lines of the written `[Difficulty]` section reads as it.
proof fn lemma_difficulty_body(d: DifficultySection, body: Seq<char>)
    requires
        clean_value(d.hp@) && float_text(d.hp@),
        clean_value(d.cs@) && float_text(d.cs@),
        clean_value(d.od@) && float_text(d.od@),
        clean_value(d.ar@) && float_text(d.ar@),
        clean_value(d.slider_multiplier@) && float_text(d.slider_multiplier@),
        clean_value(d.slider_tick_rate@) && float_text(d.slider_tick_rate@),
        lines(body) == lines(difficulty_text(d)),
    ensures
        key_value_pairs(body) == Some(difficulty_pairs(d)),
        difficulty_accepted(difficulty_pairs(d)),
        difficulty_matches(d, difficulty_pairs(d)),
{
    lemma_difficulty_roundtrip(d);
}

proof fn lemma_file_difficulty(text: Seq<char>, s: OsuSections, d: DifficultySection)
    requires
        clean_value(d.hp@) && float_text(d.hp@),
        clean_value(d.cs@) && float_text(d.cs@),
        clean_value(d.od@) && float_text(d.od@),
        clean_value(d.ar@) && float_text(d.ar@),
        clean_value(d.slider_multiplier@) && float_text(d.slider_multiplier@),
        clean_value(d.slider_tick_rate@) && float_text(d.slider_tick_rate@),
        found_as(text, "Difficulty"@, difficulty_text(d)),
    ensures
        section_body(text, "Difficulty"@) is Some,
        sections_match(s, text) ==> key_value_pairs(s.difficulty@) == Some(
            difficulty_pairs(d),
        ) && difficulty_accepted(difficulty_pairs(d)) && difficulty_matches(
            d,
            difficulty_pairs(d),
        ),
{
    reveal(found_as);
    if sections_match(s, text) {
        lemma_difficulty_body(d, s.difficulty@);
    }
}

/// A text with the lines of the written `[Events]` section reads as it.
proof fn lemma_events_body(es: Seq<Event>, body: Seq<char>, els: Seq<EventLine>, evs: Seq<Event>)
    requires
        forall|i: int| 0 <= i < es.len() ==> event_clean(#[trigger] es[i]) && event_nesting_fits(es[i]),
        lines(body) == lines(events_text(es)),
    ensures
        events_section_ok(body),
        event_lines_match(els, event_contents(lines(body))) && events_match(evs, els) ==> evs.len()
            == es.len() && forall|i: int| 0 <= i < evs.len() ==> same_event(#[trigger] evs[i], es[i]),
{
    lemma_events_roundtrip(es, els, evs);
}

proof fn lemma_file_events(text: Seq<char>, s: OsuSections, es: Seq<Event>, els: Seq<EventLine>, evs: Seq<Event>)
    requires
        forall|i: int| 0 <= i < es.len() ==> event_clean(#[trigger] es[i]) && event_nesting_fits(es[i]),
        found_as(text, "Events"@, events_text(es)),
    ensures
        section_body(text, "Events"@) is Some,
        sections_match(s, text) ==> events_section_ok(s.events@),
        sections_match(s, text) && event_lines_match(els, event_contents(lines(s.events@)))
            && events_match(evs, els) ==> evs.len() == es.len() && forall|i: int|
            0 <= i < evs.len() ==> same_event(#[trigger] evs[i], es[i]),
{
    reveal(found_as);
    if sections_match(s, text) {
        lemma_events_body(es, s.events@, els, evs);
    }
}

/// A text with the lines of the written `[TimingPoints]` section reads as it.
proof fn lemma_timing_body(ps: Seq<TimingPoint>, body: Seq<char>)
    requires
        forall|i: int| 0 <= i < ps.len() ==> timing_point_clean(#[trigger] ps[i]),
        lines(body) == lines(timing_points_text(ps)),
    ensures
        timing_section_ok(body),
        timing_points_match(ps, content_lines(lines(body))),
{
    lemma_timing_roundtrip(ps);
}

proof fn lemma_file_timing(text: Seq<char>, s: OsuSections, ps: Seq<TimingPoint>)
    requires
        forall|i: int| 0 <= i < ps.len() ==> timing_point_clean(#[trigger] ps[i]),
        found_as(text, "TimingPoints"@, timing_points_text(ps)),
    ensures
        section_body(text, "TimingPoints"@) is Some,
        sections_match(s, text) ==> timing_section_ok(s.timing@) && timing_points_match(
            ps,
            content_lines(lines(s.timing@)),
        ),
{
    reveal(found_as);
    if sections_match(s, text) {
        lemma_timing_body(ps, s.timing@);
    }
}

/// A text with the lines of the written `[Colours]` section reads as it.
proof fn lemma_colours_body(cs: Seq<Colour>, body: Seq<char>)
    requires
        forall|i: int| 0 <= i < cs.len() ==> colour_clean(#[trigger] cs[i]),
        lines(body) == lines(colours_text(cs)),
    ensures
        key_value_pairs(body) == Some(colour_pairs(cs)),
        colours_section_ok(body),
        combo_count_is(colour_pairs(cs), cs.len()),
        forall|k: int|
            0 <= k < cs.len() ==> colour_matches(
                #[trigger] cs[k],
                lookup(colour_pairs(cs), combo_key((k + 1) as nat)).unwrap(),
            ),
{
    lemma_colours_roundtrip(cs);
}

proof fn lemma_file_colours(text: Seq<char>, s: OsuSections, cs: Seq<Colour>)
    requires
        forall|i: int| 0 <= i < cs.len() ==> colour_clean(#[trigger] cs[i]),
        found_as(text, "Colours"@, colours_text(cs)),
    ensures
        section_body(text, "Colours"@) is Some,
        sections_match(s, text) ==> key_value_pairs(s.colours@) == Some(
            colour_pairs(cs),
        ) && colours_section_ok(s.colours@) && combo_count_is(
            colour_pairs(cs),
            cs.len(),
        ) && forall|k: int|
            0 <= k < cs.len() ==> colour_matches(
                #[trigger] cs[k],
                lookup(colour_pairs(cs), combo_key((k + 1) as nat)).unwrap(),
            ),
{
    reveal(found_as);
    if sections_match(s, text) {
        lemma_colours_body(cs, s.colours@);
    }
}

/// A text with the lines of the written `[HitObjects]` section reads as it.
proof fn lemma_objects_body(os: Seq<HitObject>, body: Seq<char>)
    requires
        forall|i: int| 0 <= i < os.len() ==> hit_object_clean(#[trigger] os[i]),
        lines(body) == lines(hit_objects_text(os)),
    ensures
        objects_section_ok(body),
        hit_objects_match(os, content_lines(lines(body))),
{
    lemma_hit_objects_roundtrip(os);
}

proof fn lemma_file_objects(text: Seq<char>, s: OsuSections, os: Seq<HitObject>)
    requires
        forall|i: int| 0 <= i < os.len() ==> hit_object_clean(#[trigger] os[i]),
        found_as(text, "HitObjects"@, hit_objects_text(os)),
    ensures
        section_body(text, "HitObjects"@) is Some,
        sections_match(s, text) ==> objects_section_ok(s.objects@) && hit_objects_match(
            os,
            content_lines(lines(s.objects@)),
        ),
{
    reveal(found_as);
    if sections_match(s, text) {
        lemma_objects_body(os, s.objects@);
    }
}

} // verus!
