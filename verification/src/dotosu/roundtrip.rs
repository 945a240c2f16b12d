//! Reading back what the writers write: `Key:Value` lines made of clean keys
//! and values read back as the same pairs, and a written `[Metadata]` section
//! reads back as the section it was written from.
use vstd::prelude::*;
use crate::text::{
    content_lines, field, split, first_index, lemma_first_index_props, int_text, is_ws, lemma_first_index, lemma_int_text_parse, lemma_lead_ws_char,
    lemma_nat_text, lemma_trail_ws_char, lines, nat_text, strip_cr, trim,
};
use crate::dotosu::helpers::{
    distinct_keys, has_key, key_value_line, key_value_list, key_value_pairs, lookup,
};
use crate::dotosu::colours::{
    Colour, colour_line, colour_matches, colour_ok, colours_section_ok, colours_text,
    combo_count_is, combo_key, lemma_combo_key_injective,
};
use crate::dotosu::difficulty::{DifficultySection, difficulty_accepted, difficulty_matches, difficulty_text};
use crate::dotosu::objects::{HitSample, hit_sample_matches, hit_sample_text};
use crate::dotosu::timing::{
    GreenLine, RedLine, TimingPoint, effect_bits, effect_of, i32_value, i8_value,
    lemma_effect_roundtrip, timing_line_ok, timing_point_matches, timing_point_text,
    timing_points_match, timing_points_text, timing_section_ok,
};
use crate::dotosu::general::{GeneralSection, flag, flag_text, general_accepted, general_matches, general_text, u8_value};
use crate::dotosu::metadata::{
    IdField, MetadataFields, MetadataSection, has_required_metadata, i64_value, metadata_fields_match,
    metadata_text,
};

use crate::float_syntax::float_text;

verus! {

/// A text with no whitespace at either end.
pub open spec fn is_trimmed(s: Seq<char>) -> bool {
    s.len() == 0 || (!is_ws(s[0]) && !is_ws(s.last()))
}

/// A text on one line.
pub open spec fn one_line(s: Seq<char>) -> bool {
    forall|i: int| 0 <= i < s.len() ==> s[i] != '\n'
}

/// Trimming a text with no whitespace at its ends keeps it.
pub proof fn lemma_trim_trimmed(s: Seq<char>)
    requires
        is_trimmed(s),
    ensures
        trim(s) == s,
{
    lemma_lead_ws_char(s, 0);
    assert(s.skip(0) =~= s);
    lemma_trail_ws_char(s, 0);
    assert(s.take(s.len() as int) =~= s);
}

/// The line `key:value`.
pub open spec fn kv_line(kv: (Seq<char>, Seq<char>)) -> Seq<char> {
    kv.0 + seq![':'] + kv.1
}

/// `key:value` lines, each ended by a line break.
pub open spec fn kv_text(pairs: Seq<(Seq<char>, Seq<char>)>) -> Seq<char>
    decreases pairs.len(),
{
    if pairs.len() == 0 {
        seq![]
    } else {
        kv_line(pairs[0]) + seq!['\n'] + kv_text(pairs.drop_first())
    }
}

/// A pair that its line gives back: a key on one line without `:`, a value on
/// one line, neither with whitespace at its ends.
pub open spec fn clean_pair(kv: (Seq<char>, Seq<char>)) -> bool {
    &&& forall|i: int| 0 <= i < kv.0.len() ==> kv.0[i] != ':'
    &&& one_line(kv.0)
    &&& one_line(kv.1)
    &&& is_trimmed(kv.0)
    &&& is_trimmed(kv.1)
}

pub open spec fn clean_pairs(pairs: Seq<(Seq<char>, Seq<char>)>) -> bool {
    forall|i: int| 0 <= i < pairs.len() ==> clean_pair(#[trigger] pairs[i])
}

/// The lines of a line, a line break and more text.
pub proof fn lemma_lines_cons(a: Seq<char>, rest: Seq<char>)
    requires
        one_line(a),
    ensures
        lines(a + seq!['\n'] + rest) == seq![strip_cr(a)] + lines(rest),
{
    let s = a + seq!['\n'] + rest;
    assert forall|i: int| 0 <= i < a.len() implies #[trigger] s[i] != '\n' by {
        assert(s[i] == a[i]);
    }
    assert(s[a.len() as int] == '\n');
    lemma_first_index(s, '\n', a.len() as int);
    assert(s.take(a.len() as int) =~= a);
    assert(s.skip(a.len() as int + 1) =~= rest);
}

/// A clean pair's line is one line and no `\r` ends it.
proof fn lemma_kv_line_clean(kv: (Seq<char>, Seq<char>))
    requires
        clean_pair(kv),
    ensures
        one_line(kv_line(kv)),
        strip_cr(kv_line(kv)) == kv_line(kv),
        key_value_line(kv_line(kv)) == Some(kv),
{
    let l = kv_line(kv);
    let k = kv.0.len() as int;
    assert forall|i: int| 0 <= i < l.len() implies l[i] != '\n' by {
        if i < k {
            assert(l[i] == kv.0[i]);
        } else if i > k {
            assert(l[i] == kv.1[i - k - 1]);
        }
    }
    if kv.1.len() > 0 {
        assert(l.last() == kv.1.last());
    }
    assert forall|i: int| 0 <= i < k implies #[trigger] l[i] != ':' by {
        assert(l[i] == kv.0[i]);
    }
    lemma_first_index(l, ':', k);
    assert(l.take(k) =~= kv.0);
    assert(l.skip(k + 1) =~= kv.1);
    lemma_trim_trimmed(kv.0);
    lemma_trim_trimmed(kv.1);
}

/// The lines of `kv_text` are the pairs' lines.
pub proof fn lemma_kv_text_lines(pairs: Seq<(Seq<char>, Seq<char>)>)
    requires
        clean_pairs(pairs),
    ensures
        lines(kv_text(pairs)) == pairs.map_values(|kv: (Seq<char>, Seq<char>)| kv_line(kv)),
    decreases pairs.len(),
{
    if pairs.len() > 0 {
        let rest = pairs.drop_first();
        assert(clean_pair(pairs[0]));
        assert forall|i: int| 0 <= i < rest.len() implies clean_pair(#[trigger] rest[i]) by {
            assert(rest[i] == pairs[i + 1]);
        }
        lemma_kv_line_clean(pairs[0]);
        lemma_lines_cons(kv_line(pairs[0]), kv_text(rest));
        lemma_kv_text_lines(rest);
        assert(pairs.map_values(|kv: (Seq<char>, Seq<char>)| kv_line(kv)) =~= seq![
            kv_line(pairs[0]),
        ] + rest.map_values(|kv: (Seq<char>, Seq<char>)| kv_line(kv)));
    } else {
        assert(pairs.map_values(|kv: (Seq<char>, Seq<char>)| kv_line(kv)) =~= Seq::<
            Seq<char>,
        >::empty());
    }
}

/// The lines of `kv_text` without its last line break are the same lines.
pub proof fn lemma_kv_text_trimmed_lines(pairs: Seq<(Seq<char>, Seq<char>)>)
    requires
        clean_pairs(pairs),
        pairs.len() > 0,
    ensures
        lines(kv_text(pairs).drop_last()) == lines(kv_text(pairs)),
    decreases pairs.len(),
{
    let rest = pairs.drop_first();
    assert forall|i: int| 0 <= i < rest.len() implies clean_pair(#[trigger] rest[i]) by {
        assert(rest[i] == pairs[i + 1]);
    }
    assert(clean_pair(pairs[0]));
    lemma_kv_line_clean(pairs[0]);
    let l = kv_line(pairs[0]);
    lemma_lines_cons(l, kv_text(rest));
    if rest.len() == 0 {
        let t = kv_text(pairs).drop_last();
        assert(t =~= l);
        assert(l.len() > 0);
        lemma_first_index(l, '\n', l.len() as int);
        assert(lines(t) == seq![t]);
        assert(lines(kv_text(rest)) =~= Seq::<Seq<char>>::empty());
    } else {
        lemma_kv_text_trimmed_lines(rest);
        assert(kv_text(pairs).drop_last() =~= l + seq!['\n'] + kv_text(rest).drop_last());
        lemma_lines_cons(l, kv_text(rest).drop_last());
    }
}

/// Clean lines with distinct keys read back as their pairs.
pub proof fn lemma_kv_lines_pairs(pairs: Seq<(Seq<char>, Seq<char>)>)
    requires
        clean_pairs(pairs),
        distinct_keys(pairs),
    ensures
        key_value_list(pairs.map_values(|kv: (Seq<char>, Seq<char>)| kv_line(kv))) == Some(pairs),
    decreases pairs.len(),
{
    let ls = pairs.map_values(|kv: (Seq<char>, Seq<char>)| kv_line(kv));
    if pairs.len() > 0 {
        let init = pairs.drop_last();
        assert(ls.drop_last() =~= init.map_values(|kv: (Seq<char>, Seq<char>)| kv_line(kv)));
        lemma_kv_lines_pairs(init);
        assert(clean_pair(pairs.last()));
        lemma_kv_line_clean(pairs.last());
        assert(ls.last() == kv_line(pairs.last()));
        if has_key(init, pairs.last().0) {
            let i = choose|i: int| 0 <= i < init.len() && #[trigger] init[i].0 == pairs.last().0;
            assert(pairs[i] == init[i]);
        }
        assert(init.push(pairs.last()) =~= pairs);
    } else {
        assert(ls =~= Seq::<Seq<char>>::empty());
    }
}

/// `kv_text` reads back as its pairs, with or without its last line break.
pub proof fn lemma_kv_text_pairs(pairs: Seq<(Seq<char>, Seq<char>)>)
    requires
        clean_pairs(pairs),
        distinct_keys(pairs),
    ensures
        key_value_pairs(kv_text(pairs)) == Some(pairs),
        pairs.len() > 0 ==> key_value_pairs(kv_text(pairs).drop_last()) == Some(pairs),
{
    lemma_kv_text_lines(pairs);
    lemma_kv_lines_pairs(pairs);
    if pairs.len() > 0 {
        lemma_kv_text_trimmed_lines(pairs);
    }
}

/// Among pairs with distinct keys, a key's value is the value it came with.
pub proof fn lemma_lookup_distinct(pairs: Seq<(Seq<char>, Seq<char>)>, i: int)
    requires
        distinct_keys(pairs),
        0 <= i < pairs.len(),
    ensures
        lookup(pairs, pairs[i].0) == Some(pairs[i].1),
    decreases pairs.len(),
{
    if i < pairs.len() - 1 {
        let init = pairs.drop_last();
        assert(init[i] == pairs[i]);
        lemma_lookup_distinct(init, i);
    }
}

/// A key that none of the pairs has is not found.
pub proof fn lemma_lookup_absent(pairs: Seq<(Seq<char>, Seq<char>)>, key: Seq<char>)
    requires
        forall|i: int| 0 <= i < pairs.len() ==> #[trigger] pairs[i].0 != key,
    ensures
        lookup(pairs, key) is None,
    decreases pairs.len(),
{
    if pairs.len() > 0 {
        let init = pairs.drop_last();
        assert forall|i: int| 0 <= i < init.len() implies #[trigger] init[i].0 != key by {
            assert(init[i] == pairs[i]);
        }
        lemma_lookup_absent(init, key);
    }
}

/// The text of an integer is trimmed and on one line.
pub(crate) proof fn lemma_int_text_clean(n: int)
    ensures
        is_trimmed(int_text(n)),
        one_line(int_text(n)),
        forall|i: int| 0 <= i < int_text(n).len() ==> int_text(n)[i] != ':',
        forall|i: int| 0 <= i < int_text(n).len() ==> int_text(n)[i] != ',',
        forall|i: int| 0 <= i < int_text(n).len() ==> int_text(n)[i] != '|',
        int_text(n).len() > 0,
{
    let m: nat = if n < 0 {
        (-n) as nat
    } else {
        n as nat
    };
    lemma_nat_text(m);
    let t = int_text(n);
    assert forall|i: int| 0 <= i < t.len() implies t[i] != '\n' && t[i] != ':' && t[i] != ','
        && t[i] != '|' && !is_ws(t[i]) by {
        if n < 0 && i == 0 {
            assert(t[0] == '-');
        } else if n < 0 {
            assert(t[i] == nat_text(m)[i - 1]);
        }
    }
}

/// The pairs that the `[Metadata]` writer writes, in order.
pub open spec fn metadata_pairs(m: MetadataSection) -> Seq<(Seq<char>, Seq<char>)> {
    seq![
        ("Title"@, m.title@),
        ("TitleUnicode"@, m.title_unicode@),
        ("Artist"@, m.artist@),
        ("ArtistUnicode"@, m.artist_unicode@),
        ("Creator"@, m.creator@),
        ("Version"@, m.version@),
        ("Source"@, m.source@),
        ("Tags"@, m.tags@),
        ("BeatmapID"@, int_text(m.beatmap_id as int)),
        ("BeatmapSetID"@, int_text(m.beatmapset_id as int)),
    ]
}

/// A value that reads back as written: on one line, without whitespace at
/// its ends.
pub open spec fn clean_value(s: Seq<char>) -> bool {
    one_line(s) && is_trimmed(s)
}

/// The metadata's texts read back as written.
pub open spec fn metadata_clean(m: MetadataSection) -> bool {
    &&& clean_value(m.title@)
    &&& clean_value(m.title_unicode@)
    &&& clean_value(m.artist@)
    &&& clean_value(m.artist_unicode@)
    &&& clean_value(m.creator@)
    &&& clean_value(m.version@)
    &&& clean_value(m.source@)
    &&& clean_value(m.tags@)
}

/// The fields that reading the section of `m` gives.
pub open spec fn metadata_fields_of(m: MetadataSection) -> MetadataFields {
    MetadataFields {
        title: m.title,
        title_unicode: m.title_unicode,
        artist: m.artist,
        artist_unicode: m.artist_unicode,
        creator: m.creator,
        version: m.version,
        source: m.source,
        tags: m.tags,
        beatmap_id: IdField::Given(m.beatmap_id),
        beatmapset_id: IdField::Given(m.beatmapset_id),
    }
}

/// Appending a pair to the pairs appends its line.
pub proof fn lemma_kv_text_push(pairs: Seq<(Seq<char>, Seq<char>)>, kv: (Seq<char>, Seq<char>))
    ensures
        kv_text(pairs.push(kv)) == kv_text(pairs) + kv_line(kv) + seq!['\n'],
    decreases pairs.len(),
{
    if pairs.len() == 0 {
        assert(pairs.push(kv).drop_first() =~= Seq::<(Seq<char>, Seq<char>)>::empty());
        assert(kv_text(pairs.push(kv).drop_first()) =~= Seq::<char>::empty());
        assert(kv_text(pairs) =~= Seq::<char>::empty());
        assert(kv_text(pairs.push(kv)) =~= kv_text(pairs) + kv_line(kv) + seq!['\n']);
    } else {
        assert(pairs.push(kv).drop_first() =~= pairs.drop_first().push(kv));
        assert(pairs.push(kv)[0] == pairs[0]);
        lemma_kv_text_push(pairs.drop_first(), kv);
        assert(kv_text(pairs.push(kv)) =~= kv_text(pairs) + kv_line(kv) + seq!['\n']);
    }
}

/// One more line of a section's text.
proof fn lemma_kv_step(
    p: Seq<(Seq<char>, Seq<char>)>,
    j: int,
    prefix: Seq<char>,
    label: Seq<char>,
)
    requires
        0 <= j < p.len(),
        kv_text(p.take(j)) == prefix,
        label == p[j].0 + seq![':'],
    ensures
        kv_text(p.take(j + 1)) == prefix + label + p[j].1 + seq!['\n'],
{
    lemma_kv_text_push(p.take(j), p[j]);
    assert(p.take(j).push(p[j]) =~= p.take(j + 1));
    assert(prefix + kv_line(p[j]) + seq!['\n'] =~= prefix + label + p[j].1 + seq!['\n']);
}

/// The metadata text is the text of its pairs.
proof fn lemma_metadata_text_pairs(m: MetadataSection)
    ensures
        metadata_text(m) == kv_text(metadata_pairs(m)),
{
    reveal_strlit("Title:");
    reveal_strlit("Title");
    reveal_strlit("TitleUnicode:");
    reveal_strlit("TitleUnicode");
    reveal_strlit("Artist:");
    reveal_strlit("Artist");
    reveal_strlit("ArtistUnicode:");
    reveal_strlit("ArtistUnicode");
    reveal_strlit("Creator:");
    reveal_strlit("Creator");
    reveal_strlit("Version:");
    reveal_strlit("Version");
    reveal_strlit("Source:");
    reveal_strlit("Source");
    reveal_strlit("Tags:");
    reveal_strlit("Tags");
    reveal_strlit("BeatmapID:");
    reveal_strlit("BeatmapID");
    reveal_strlit("BeatmapSetID:");
    reveal_strlit("BeatmapSetID");
    reveal_strlit("\n");
    assert("\n"@ =~= seq!['\n']);
    let p = metadata_pairs(m);
    assert(p.take(0) =~= Seq::<(Seq<char>, Seq<char>)>::empty());
    assert("Title:"@ =~= "Title"@ + seq![':']);
    let p0 = "Title:"@ + m.title@ + "\n"@;
    lemma_kv_step(p, 0, Seq::<char>::empty(), "Title:"@);
    assert(kv_text(p.take(1)) =~= p0);
    assert("TitleUnicode:"@ =~= "TitleUnicode"@ + seq![':']);
    let p1 = p0 + "TitleUnicode:"@ + m.title_unicode@ + "\n"@;
    lemma_kv_step(p, 1, p0, "TitleUnicode:"@);
    assert(kv_text(p.take(2)) =~= p1);
    assert("Artist:"@ =~= "Artist"@ + seq![':']);
    let p2 = p1 + "Artist:"@ + m.artist@ + "\n"@;
    lemma_kv_step(p, 2, p1, "Artist:"@);
    assert(kv_text(p.take(3)) =~= p2);
    assert("ArtistUnicode:"@ =~= "ArtistUnicode"@ + seq![':']);
    let p3 = p2 + "ArtistUnicode:"@ + m.artist_unicode@ + "\n"@;
    lemma_kv_step(p, 3, p2, "ArtistUnicode:"@);
    assert(kv_text(p.take(4)) =~= p3);
    assert("Creator:"@ =~= "Creator"@ + seq![':']);
    let p4 = p3 + "Creator:"@ + m.creator@ + "\n"@;
    lemma_kv_step(p, 4, p3, "Creator:"@);
    assert(kv_text(p.take(5)) =~= p4);
    assert("Version:"@ =~= "Version"@ + seq![':']);
    let p5 = p4 + "Version:"@ + m.version@ + "\n"@;
    lemma_kv_step(p, 5, p4, "Version:"@);
    assert(kv_text(p.take(6)) =~= p5);
    assert("Source:"@ =~= "Source"@ + seq![':']);
    let p6 = p5 + "Source:"@ + m.source@ + "\n"@;
    lemma_kv_step(p, 6, p5, "Source:"@);
    assert(kv_text(p.take(7)) =~= p6);
    assert("Tags:"@ =~= "Tags"@ + seq![':']);
    let p7 = p6 + "Tags:"@ + m.tags@ + "\n"@;
    lemma_kv_step(p, 7, p6, "Tags:"@);
    assert(kv_text(p.take(8)) =~= p7);
    assert("BeatmapID:"@ =~= "BeatmapID"@ + seq![':']);
    let p8 = p7 + "BeatmapID:"@ + int_text(m.beatmap_id as int) + "\n"@;
    lemma_kv_step(p, 8, p7, "BeatmapID:"@);
    assert(kv_text(p.take(9)) =~= p8);
    assert("BeatmapSetID:"@ =~= "BeatmapSetID"@ + seq![':']);
    let p9 = p8 + "BeatmapSetID:"@ + int_text(m.beatmapset_id as int) + "\n"@;
    lemma_kv_step(p, 9, p8, "BeatmapSetID:"@);
    assert(kv_text(p.take(10)) =~= p9);
    assert(p.take(10) =~= p);
}

/// Each metadata field is written under its own key: in the `Key:Value`
/// lines that `MetadataSection::to_osu_text` writes, `Title` holds the title,
/// `TitleUnicode` the Unicode title, `Artist` the artist, `ArtistUnicode` the
/// Unicode artist, and so on for `Creator`, `Version`, `Source` and `Tags`.
pub proof fn lemma_metadata_written_keys(m: MetadataSection)
    requires
        metadata_clean(m),
    ensures
        key_value_pairs(metadata_text(m)) matches Some(p) && {
            &&& lookup(p, "Title"@) == Some(m.title@)
            &&& lookup(p, "TitleUnicode"@) == Some(m.title_unicode@)
            &&& lookup(p, "Artist"@) == Some(m.artist@)
            &&& lookup(p, "ArtistUnicode"@) == Some(m.artist_unicode@)
            &&& lookup(p, "Creator"@) == Some(m.creator@)
            &&& lookup(p, "Version"@) == Some(m.version@)
            &&& lookup(p, "Source"@) == Some(m.source@)
            &&& lookup(p, "Tags"@) == Some(m.tags@)
        },
{
    lemma_metadata_roundtrip(m);
    reveal_strlit("Title");
    reveal_strlit("TitleUnicode");
    reveal_strlit("Artist");
    reveal_strlit("ArtistUnicode");
    reveal_strlit("Creator");
    reveal_strlit("Version");
    reveal_strlit("Source");
    reveal_strlit("Tags");
    reveal_strlit("BeatmapID");
    reveal_strlit("BeatmapSetID");
    reveal_with_fuel(lookup, 11);
}

/// Reading the `[Metadata]` lines that `MetadataSection::to_osu_text` writes
/// gives back the section, where its texts are on one line and have no
/// whitespace at their ends; the ids come back as given. This holds with or
/// without the last line break.
pub proof fn lemma_metadata_roundtrip(m: MetadataSection)
    requires
        metadata_clean(m),
    ensures
        key_value_pairs(metadata_text(m)) == Some(metadata_pairs(m)),
        key_value_pairs(metadata_text(m).drop_last()) == Some(metadata_pairs(m)),
        has_required_metadata(metadata_pairs(m)),
        metadata_fields_match(metadata_fields_of(m), metadata_pairs(m)),
{
    reveal_strlit("Title");
    reveal_strlit("TitleUnicode");
    reveal_strlit("Artist");
    reveal_strlit("ArtistUnicode");
    reveal_strlit("Creator");
    reveal_strlit("Version");
    reveal_strlit("Source");
    reveal_strlit("Tags");
    reveal_strlit("BeatmapID");
    reveal_strlit("BeatmapSetID");
    let p = metadata_pairs(m);
    lemma_int_text_clean(m.beatmap_id as int);
    lemma_int_text_clean(m.beatmapset_id as int);
    assert forall|i: int| 0 <= i < p.len() implies clean_pair(#[trigger] p[i]) by {
        assert(is_trimmed(p[i].0));
    }
    assert(distinct_keys(p));
    lemma_metadata_text_pairs(m);
    lemma_kv_text_pairs(p);
    lemma_lookup_distinct(p, 0);
    lemma_lookup_distinct(p, 1);
    lemma_lookup_distinct(p, 2);
    lemma_lookup_distinct(p, 3);
    lemma_lookup_distinct(p, 4);
    lemma_lookup_distinct(p, 5);
    lemma_lookup_distinct(p, 6);
    lemma_lookup_distinct(p, 7);
    lemma_lookup_distinct(p, 8);
    lemma_lookup_distinct(p, 9);
    lemma_int_text_parse(m.beatmap_id as int, i64::MIN as int, i64::MAX as int);
    lemma_int_text_parse(m.beatmapset_id as int, i64::MIN as int, i64::MAX as int);
}

/// The pairs that the `[Difficulty]` writer writes, in order.
pub open spec fn difficulty_pairs(d: DifficultySection) -> Seq<(Seq<char>, Seq<char>)> {
    seq![
        ("HPDrainRate"@, d.hp@),
        ("CircleSize"@, d.cs@),
        ("OverallDifficulty"@, d.od@),
        ("ApproachRate"@, d.ar@),
        ("SliderMultiplier"@, d.slider_multiplier@),
        ("SliderTickRate"@, d.slider_tick_rate@),
    ]
}

/// The difficulty text is the text of its pairs.
proof fn lemma_difficulty_text_pairs(d: DifficultySection)
    ensures
        difficulty_text(d) == kv_text(difficulty_pairs(d)),
{
    reveal_strlit("HPDrainRate:");
    reveal_strlit("HPDrainRate");
    reveal_strlit("CircleSize:");
    reveal_strlit("CircleSize");
    reveal_strlit("OverallDifficulty:");
    reveal_strlit("OverallDifficulty");
    reveal_strlit("ApproachRate:");
    reveal_strlit("ApproachRate");
    reveal_strlit("SliderMultiplier:");
    reveal_strlit("SliderMultiplier");
    reveal_strlit("SliderTickRate:");
    reveal_strlit("SliderTickRate");
    reveal_strlit("\n");
    assert("\n"@ =~= seq!['\n']);
    let p = difficulty_pairs(d);
    assert(p.take(0) =~= Seq::<(Seq<char>, Seq<char>)>::empty());
    assert("HPDrainRate:"@ =~= "HPDrainRate"@ + seq![':']);
    let p0 = "HPDrainRate:"@ + d.hp@ + "\n"@;
    lemma_kv_step(p, 0, Seq::<char>::empty(), "HPDrainRate:"@);
    assert(kv_text(p.take(1)) =~= p0);
    assert("CircleSize:"@ =~= "CircleSize"@ + seq![':']);
    let p1 = p0 + "CircleSize:"@ + d.cs@ + "\n"@;
    lemma_kv_step(p, 1, p0, "CircleSize:"@);
    assert(kv_text(p.take(2)) =~= p1);
    assert("OverallDifficulty:"@ =~= "OverallDifficulty"@ + seq![':']);
    let p2 = p1 + "OverallDifficulty:"@ + d.od@ + "\n"@;
    lemma_kv_step(p, 2, p1, "OverallDifficulty:"@);
    assert(kv_text(p.take(3)) =~= p2);
    assert("ApproachRate:"@ =~= "ApproachRate"@ + seq![':']);
    let p3 = p2 + "ApproachRate:"@ + d.ar@ + "\n"@;
    lemma_kv_step(p, 3, p2, "ApproachRate:"@);
    assert(kv_text(p.take(4)) =~= p3);
    assert("SliderMultiplier:"@ =~= "SliderMultiplier"@ + seq![':']);
    let p4 = p3 + "SliderMultiplier:"@ + d.slider_multiplier@ + "\n"@;
    lemma_kv_step(p, 4, p3, "SliderMultiplier:"@);
    assert(kv_text(p.take(5)) =~= p4);
    assert("SliderTickRate:"@ =~= "SliderTickRate"@ + seq![':']);
    let p5 = p4 + "SliderTickRate:"@ + d.slider_tick_rate@ + "\n"@;
    lemma_kv_step(p, 5, p4, "SliderTickRate:"@);
    assert(kv_text(p.take(6)) =~= p5);
    assert(p.take(6) =~= p);
}

/// Reading the `[Difficulty]` lines that `DifficultySection::to_osu_text`
/// writes gives back the section, where its texts are on one line and have no
/// whitespace at their ends (with or without the last line break).
pub proof fn lemma_difficulty_roundtrip(d: DifficultySection)
    requires
        clean_value(d.hp@) && float_text(d.hp@),
        clean_value(d.cs@) && float_text(d.cs@),
        clean_value(d.od@) && float_text(d.od@),
        clean_value(d.ar@) && float_text(d.ar@),
        clean_value(d.slider_multiplier@) && float_text(d.slider_multiplier@),
        clean_value(d.slider_tick_rate@) && float_text(d.slider_tick_rate@),
    ensures
        key_value_pairs(difficulty_text(d)) == Some(difficulty_pairs(d)),
        key_value_pairs(difficulty_text(d).drop_last()) == Some(difficulty_pairs(d)),
        difficulty_accepted(difficulty_pairs(d)),
        difficulty_matches(d, difficulty_pairs(d)),
{
    reveal_strlit("HPDrainRate");
    reveal_strlit("CircleSize");
    reveal_strlit("OverallDifficulty");
    reveal_strlit("ApproachRate");
    reveal_strlit("SliderMultiplier");
    reveal_strlit("SliderTickRate");
    let p = difficulty_pairs(d);
    assert forall|i: int| 0 <= i < p.len() implies clean_pair(#[trigger] p[i]) by {
        assert(is_trimmed(p[i].0));
    }
    assert(distinct_keys(p));
    lemma_difficulty_text_pairs(d);
    lemma_kv_text_pairs(p);
    lemma_lookup_distinct(p, 0);
    lemma_lookup_distinct(p, 1);
    lemma_lookup_distinct(p, 2);
    lemma_lookup_distinct(p, 3);
    lemma_lookup_distinct(p, 4);
    lemma_lookup_distinct(p, 5);
}

/// The text of a flag is `1` or `0`, which read back as the flag.
proof fn lemma_flag_text(b: bool)
    ensures
        is_trimmed(flag_text(b)),
        one_line(flag_text(b)),
        u8_value(flag_text(b)) == Some(if b { 1int } else { 0int }),
{
    reveal_strlit("1");
    reveal_strlit("0");
    let n: int = if b { 1 } else { 0 };
    assert(int_text(n) =~= flag_text(b));
    lemma_int_text_parse(n, 0, 255);
    lemma_int_text_clean(n);
}

/// The pairs that the `[General]` writer writes, in order.
pub open spec fn general_pairs(g: GeneralSection) -> Seq<(Seq<char>, Seq<char>)> {
    seq![
        ("AudioFilename"@, g.audio_filename@),
        ("AudioLeadIn"@, g.audio_lead_in@),
        ("PreviewTime"@, int_text(g.preview_time as int)),
        ("Countdown"@, flag_text(g.countdown)),
        ("SampleSet"@, g.sample_set@),
        ("StackLeniency"@, g.stack_leniency@),
        ("Mode"@, int_text(g.mode as int)),
        ("LetterboxInBreaks"@, flag_text(g.letterbox_in_breaks)),
        ("EpilepsyWarning"@, flag_text(g.epilepsy_warning)),
        ("WidescreenStoryboard"@, flag_text(g.widescreen_storyboard)),
    ]
}

/// The general text is the text of its pairs.
proof fn lemma_general_text_pairs(g: GeneralSection)
    ensures
        general_text(g) == kv_text(general_pairs(g)),
{
    reveal_strlit("AudioFilename:");
    reveal_strlit("AudioFilename");
    reveal_strlit("AudioLeadIn:");
    reveal_strlit("AudioLeadIn");
    reveal_strlit("PreviewTime:");
    reveal_strlit("PreviewTime");
    reveal_strlit("Countdown:");
    reveal_strlit("Countdown");
    reveal_strlit("SampleSet:");
    reveal_strlit("SampleSet");
    reveal_strlit("StackLeniency:");
    reveal_strlit("StackLeniency");
    reveal_strlit("Mode:");
    reveal_strlit("Mode");
    reveal_strlit("LetterboxInBreaks:");
    reveal_strlit("LetterboxInBreaks");
    reveal_strlit("EpilepsyWarning:");
    reveal_strlit("EpilepsyWarning");
    reveal_strlit("WidescreenStoryboard:");
    reveal_strlit("WidescreenStoryboard");
    reveal_strlit("\n");
    assert("\n"@ =~= seq!['\n']);
    let p = general_pairs(g);
    assert(p.take(0) =~= Seq::<(Seq<char>, Seq<char>)>::empty());
    assert("AudioFilename:"@ =~= "AudioFilename"@ + seq![':']);
    let p0 = "AudioFilename:"@ + g.audio_filename@ + "\n"@;
    lemma_kv_step(p, 0, Seq::<char>::empty(), "AudioFilename:"@);
    assert(kv_text(p.take(1)) =~= p0);
    assert("AudioLeadIn:"@ =~= "AudioLeadIn"@ + seq![':']);
    let p1 = p0 + "AudioLeadIn:"@ + g.audio_lead_in@ + "\n"@;
    lemma_kv_step(p, 1, p0, "AudioLeadIn:"@);
    assert(kv_text(p.take(2)) =~= p1);
    assert("PreviewTime:"@ =~= "PreviewTime"@ + seq![':']);
    let p2 = p1 + "PreviewTime:"@ + int_text(g.preview_time as int) + "\n"@;
    lemma_kv_step(p, 2, p1, "PreviewTime:"@);
    assert(kv_text(p.take(3)) =~= p2);
    assert("Countdown:"@ =~= "Countdown"@ + seq![':']);
    let p3 = p2 + "Countdown:"@ + flag_text(g.countdown) + "\n"@;
    lemma_kv_step(p, 3, p2, "Countdown:"@);
    assert(kv_text(p.take(4)) =~= p3);
    assert("SampleSet:"@ =~= "SampleSet"@ + seq![':']);
    let p4 = p3 + "SampleSet:"@ + g.sample_set@ + "\n"@;
    lemma_kv_step(p, 4, p3, "SampleSet:"@);
    assert(kv_text(p.take(5)) =~= p4);
    assert("StackLeniency:"@ =~= "StackLeniency"@ + seq![':']);
    let p5 = p4 + "StackLeniency:"@ + g.stack_leniency@ + "\n"@;
    lemma_kv_step(p, 5, p4, "StackLeniency:"@);
    assert(kv_text(p.take(6)) =~= p5);
    assert("Mode:"@ =~= "Mode"@ + seq![':']);
    let p6 = p5 + "Mode:"@ + int_text(g.mode as int) + "\n"@;
    lemma_kv_step(p, 6, p5, "Mode:"@);
    assert(kv_text(p.take(7)) =~= p6);
    assert("LetterboxInBreaks:"@ =~= "LetterboxInBreaks"@ + seq![':']);
    let p7 = p6 + "LetterboxInBreaks:"@ + flag_text(g.letterbox_in_breaks) + "\n"@;
    lemma_kv_step(p, 7, p6, "LetterboxInBreaks:"@);
    assert(kv_text(p.take(8)) =~= p7);
    assert("EpilepsyWarning:"@ =~= "EpilepsyWarning"@ + seq![':']);
    let p8 = p7 + "EpilepsyWarning:"@ + flag_text(g.epilepsy_warning) + "\n"@;
    lemma_kv_step(p, 8, p7, "EpilepsyWarning:"@);
    assert(kv_text(p.take(9)) =~= p8);
    assert("WidescreenStoryboard:"@ =~= "WidescreenStoryboard"@ + seq![':']);
    let p9 = p8 + "WidescreenStoryboard:"@ + flag_text(g.widescreen_storyboard) + "\n"@;
    lemma_kv_step(p, 9, p8, "WidescreenStoryboard:"@);
    assert(kv_text(p.take(10)) =~= p9);
    assert(p.take(10) =~= p);
}

/// Reading the `[General]` lines that `GeneralSection::to_osu_text` writes
/// gives back the section, where its texts are on one line and have no
/// whitespace at their ends (with or without the last line break).
pub proof fn lemma_general_roundtrip(g: GeneralSection)
    requires
        clean_value(g.audio_filename@),
        clean_value(g.audio_lead_in@) && float_text(g.audio_lead_in@),
        clean_value(g.sample_set@),
        clean_value(g.stack_leniency@) && float_text(g.stack_leniency@),
    ensures
        key_value_pairs(general_text(g)) == Some(general_pairs(g)),
        key_value_pairs(general_text(g).drop_last()) == Some(general_pairs(g)),
        general_accepted(general_pairs(g)),
        general_matches(g, general_pairs(g)),
{
    reveal_strlit("AudioFilename");
    reveal_strlit("AudioLeadIn");
    reveal_strlit("PreviewTime");
    reveal_strlit("Countdown");
    reveal_strlit("SampleSet");
    reveal_strlit("StackLeniency");
    reveal_strlit("Mode");
    reveal_strlit("LetterboxInBreaks");
    reveal_strlit("EpilepsyWarning");
    reveal_strlit("WidescreenStoryboard");
    let p = general_pairs(g);
    lemma_int_text_clean(g.preview_time as int);
    lemma_int_text_clean(g.mode as int);
    lemma_flag_text(g.countdown);
    lemma_flag_text(g.letterbox_in_breaks);
    lemma_flag_text(g.epilepsy_warning);
    lemma_flag_text(g.widescreen_storyboard);
    assert forall|i: int| 0 <= i < p.len() implies clean_pair(#[trigger] p[i]) by {
        assert(is_trimmed(p[i].0));
    }
    assert(distinct_keys(p));
    lemma_general_text_pairs(g);
    lemma_kv_text_pairs(p);
    lemma_lookup_distinct(p, 0);
    lemma_lookup_distinct(p, 1);
    lemma_lookup_distinct(p, 2);
    lemma_lookup_distinct(p, 3);
    lemma_lookup_distinct(p, 4);
    lemma_lookup_distinct(p, 5);
    lemma_lookup_distinct(p, 6);
    lemma_lookup_distinct(p, 7);
    lemma_lookup_distinct(p, 8);
    lemma_lookup_distinct(p, 9);
    lemma_int_text_parse(g.preview_time as int, i64::MIN as int, i64::MAX as int);
    lemma_int_text_parse(g.mode as int, 0, 255);
}

/// The pieces of a piece without `c`, `c` and more text.
pub proof fn lemma_split_cons(a: Seq<char>, c: char, rest: Seq<char>)
    requires
        forall|i: int| 0 <= i < a.len() ==> a[i] != c,
    ensures
        split(a + seq![c] + rest, c) == seq![a] + split(rest, c),
{
    let s = a + seq![c] + rest;
    assert forall|i: int| 0 <= i < a.len() implies #[trigger] s[i] != c by {
        assert(s[i] == a[i]);
    }
    assert(s[a.len() as int] == c);
    lemma_first_index(s, c, a.len() as int);
    assert(s.take(a.len() as int) =~= a);
    assert(s.skip(a.len() as int + 1) =~= rest);
}

/// A text without `c` is one piece.
pub(crate) proof fn lemma_split_single(a: Seq<char>, c: char)
    requires
        forall|i: int| 0 <= i < a.len() ==> a[i] != c,
    ensures
        split(a, c) == seq![a],
{
    lemma_first_index(a, c, a.len() as int);
}

/// Reading the text that `HitSample::to_osu_text` writes gives back the hit
/// sample, where its file name has no `:` and no whitespace at its ends.
pub proof fn lemma_hit_sample_roundtrip(hs: HitSample)
    requires
        forall|i: int| 0 <= i < hs.filename@.len() ==> hs.filename@[i] != ':',
        is_trimmed(hs.filename@),
    ensures
        hit_sample_matches(hs, hit_sample_text(hs)),
{
    reveal_strlit(":");
    assert(":"@ =~= seq![':']);
    let n = int_text(hs.normal_set as int);
    let a = int_text(hs.addition_set as int);
    let i = int_text(hs.index as int);
    let v = int_text(hs.volume as int);
    let f = hs.filename@;
    lemma_int_text_clean(hs.normal_set as int);
    lemma_int_text_clean(hs.addition_set as int);
    lemma_int_text_clean(hs.index as int);
    lemma_int_text_clean(hs.volume as int);
    let t4 = v + seq![':'] + f;
    let t3 = i + seq![':'] + t4;
    let t2 = a + seq![':'] + t3;
    let t1 = n + seq![':'] + t2;
    assert(hit_sample_text(hs) =~= t1);
    lemma_split_single(f, ':');
    lemma_split_cons(v, ':', f);
    lemma_split_cons(i, ':', t4);
    lemma_split_cons(a, ':', t3);
    lemma_split_cons(n, ':', t2);
    let p = split(t1, ':');
    assert(p =~= seq![n, a, i, v, f]);
    lemma_trim_trimmed(n);
    lemma_trim_trimmed(a);
    lemma_trim_trimmed(i);
    lemma_trim_trimmed(v);
    lemma_trim_trimmed(f);
    assert(field(p, 0) == n && field(p, 1) == a && field(p, 2) == i && field(p, 3) == v
        && field(p, 4) == f);
    lemma_int_text_parse(hs.normal_set as int, i32::MIN as int, i32::MAX as int);
    lemma_int_text_parse(hs.addition_set as int, i32::MIN as int, i32::MAX as int);
    lemma_int_text_parse(hs.index as int, i32::MIN as int, i32::MAX as int);
    lemma_int_text_parse(hs.volume as int, i32::MIN as int, i32::MAX as int);
}

/// The lines of text that ends a line, followed by more text, are its lines
/// followed by those of the rest.
pub proof fn lemma_lines_append(a: Seq<char>, b: Seq<char>)
    requires
        a.len() == 0 || a.last() == '\n',
    ensures
        lines(a + b) == lines(a) + lines(b),
    decreases a.len(),
{
    if a.len() == 0 {
        assert(a + b =~= b);
        assert(lines(a) =~= Seq::<Seq<char>>::empty());
        assert(lines(a) + lines(b) =~= lines(b));
    } else {
        lemma_first_index_props(a, '\n');
        assert(a[a.len() - 1] == '\n');
        let k = first_index(a, '\n').unwrap();
        let ab = a + b;
        assert forall|i: int| 0 <= i < k implies #[trigger] ab[i] != '\n' by {
            assert(ab[i] == a[i]);
        }
        assert(ab[k] == a[k]);
        lemma_first_index(ab, '\n', k);
        assert(ab.take(k) =~= a.take(k));
        assert(ab.skip(k + 1) =~= a.skip(k + 1) + b);
        let rest = a.skip(k + 1);
        if rest.len() > 0 {
            assert(rest.last() == a.last());
        }
        lemma_lines_append(rest, b);
        assert(lines(ab) =~= lines(a) + lines(b));
    }
}

/// A line of text: what is left of it once its line break is dropped.
pub open spec fn timing_line(tp: TimingPoint) -> Seq<char> {
    timing_point_text(tp).drop_last()
}

/// A decimal text that a timing line reads back: on one line, without commas
/// or whitespace at its ends.
pub open spec fn clean_field(s: Seq<char>) -> bool {
    &&& one_line(s)
    &&& is_trimmed(s)
    &&& forall|i: int| 0 <= i < s.len() ==> s[i] != ','
}

/// A clean field that reads as a number.
pub open spec fn clean_number(s: Seq<char>) -> bool {
    clean_field(s) && float_text(s)
}

/// The decimal texts of a timing point are clean fields that read as numbers.
pub open spec fn timing_point_clean(tp: TimingPoint) -> bool {
    match tp {
        TimingPoint::RedLine(x) => clean_number(x.time@) && clean_number(x.beat_length@),
        TimingPoint::GreenLine(x) => clean_number(x.time@) && clean_number(x.beat_length@),
    }
}

/// The one-character text of a small number.
pub(crate) proof fn lemma_digit_text(n: int, lit: Seq<char>)
    requires
        0 <= n <= 9,
        lit == seq![((n + '0' as int) as char)],
    ensures
        int_text(n) == lit,
{
    assert(int_text(n) =~= lit);
}

/// The pieces of `a,b,...` with the pieces free of commas.
proof fn lemma_split8(ps: Seq<Seq<char>>)
    requires
        ps.len() == 8,
        forall|j: int, i: int| 0 <= j < 8 && 0 <= i < ps[j].len() ==> ps[j][i] != ',',
    ensures
        split(
            ps[0] + seq![','] + ps[1] + seq![','] + ps[2] + seq![','] + ps[3] + seq![','] + ps[4]
                + seq![','] + ps[5] + seq![','] + ps[6] + seq![','] + ps[7],
            ',',
        ) == ps,
{
    let t7 = ps[7];
    let t6 = ps[6] + seq![','] + t7;
    let t5 = ps[5] + seq![','] + t6;
    let t4 = ps[4] + seq![','] + t5;
    let t3 = ps[3] + seq![','] + t4;
    let t2 = ps[2] + seq![','] + t3;
    let t1 = ps[1] + seq![','] + t2;
    let t0 = ps[0] + seq![','] + t1;
    assert(ps[0] + seq![','] + ps[1] + seq![','] + ps[2] + seq![','] + ps[3] + seq![','] + ps[4]
        + seq![','] + ps[5] + seq![','] + ps[6] + seq![','] + ps[7] =~= t0);
    lemma_split_single(t7, ',');
    lemma_split_cons(ps[6], ',', t7);
    lemma_split_cons(ps[5], ',', t6);
    lemma_split_cons(ps[4], ',', t5);
    lemma_split_cons(ps[3], ',', t4);
    lemma_split_cons(ps[2], ',', t3);
    lemma_split_cons(ps[1], ',', t2);
    lemma_split_cons(ps[0], ',', t1);
    assert(split(t0, ',') =~= ps);
}

/// Eight comma-joined pieces.
pub open spec fn join8(ps: Seq<Seq<char>>) -> Seq<char> {
    ps[0] + seq![','] + ps[1] + seq![','] + ps[2] + seq![','] + ps[3] + seq![','] + ps[4] + seq![
        ',',
    ] + ps[5] + seq![','] + ps[6] + seq![','] + ps[7]
}

/// Clean pieces joined by commas split back into themselves, form one line,
/// and have no whitespace at their ends.
proof fn lemma_join8(ps: Seq<Seq<char>>)
    requires
        ps.len() == 8,
        forall|j: int| 0 <= j < 8 ==> #[trigger] clean_field(ps[j]),
        ps[7].len() > 0,
    ensures
        split(join8(ps), ',') == ps,
        one_line(join8(ps)),
        is_trimmed(join8(ps)),
        join8(ps).len() > 0,
        forall|j: int| 0 <= j < 8 ==> #[trigger] field(ps, j) == ps[j],
{
    assert(clean_field(ps[0]) && clean_field(ps[1]) && clean_field(ps[2]) && clean_field(ps[3]));
    assert(clean_field(ps[4]) && clean_field(ps[5]) && clean_field(ps[6]) && clean_field(ps[7]));
    lemma_split8(ps);
    let l = join8(ps);
    assert forall|i: int| 0 <= i < l.len() implies l[i] != '\n' by {
        lemma_pieces_char(ps, i);
    }
    lemma_pieces_ends(ps);
    assert forall|j: int| 0 <= j < 8 implies #[trigger] field(ps, j) == ps[j] by {
        assert(clean_field(ps[j]));
        lemma_trim_trimmed(ps[j]);
    }
}

/// The text of an integer is a clean field.
pub(crate) proof fn lemma_int_field(n: int)
    ensures
        clean_field(int_text(n)),
        int_text(n).len() > 0,
{
    lemma_int_text_clean(n);
}

/// A written red line reads back as the line.
#[verifier::spinoff_prover]
#[verifier::rlimit(50)]
proof fn lemma_red_line_roundtrip(x: RedLine)
    requires
        clean_number(x.time@),
        clean_number(x.beat_length@),
    ensures
        ({
            let tp = TimingPoint::RedLine(x);
            &&& timing_point_text(tp) == timing_line(tp) + seq!['\n']
            &&& one_line(timing_line(tp))
            &&& is_trimmed(timing_line(tp))
            &&& timing_line(tp).len() > 0
            &&& timing_line_ok(split(timing_line(tp), ','))
            &&& timing_point_matches(tp, split(timing_line(tp), ','))
        }),
{
    let tp = TimingPoint::RedLine(x);
    reveal_strlit(",");
    reveal_strlit(",1,");
    reveal_strlit("\n");
    let e = effect_bits(x.effects) as int;
    let ps = seq![
        x.time@,
        x.beat_length@,
        int_text(x.meter as int),
        int_text(x.sample_set as int),
        int_text(x.sample_index as int),
        int_text(x.volume as int),
        int_text(1),
        int_text(e),
    ];
    lemma_digit_text(1, seq!['1']);
    assert(timing_point_text(tp) =~= join8(ps) + seq!['\n']);
    assert(timing_line(tp) =~= join8(ps));
    lemma_int_field(x.meter as int);
    lemma_int_field(x.sample_set as int);
    lemma_int_field(x.sample_index as int);
    lemma_int_field(x.volume as int);
    lemma_int_field(1);
    lemma_int_field(e);
    lemma_join8(ps);
    lemma_int_text_parse(x.meter as int, i32::MIN as int, i32::MAX as int);
    lemma_int_text_parse(x.sample_set as int, i32::MIN as int, i32::MAX as int);
    lemma_int_text_parse(x.sample_index as int, i32::MIN as int, i32::MAX as int);
    lemma_int_text_parse(x.volume as int, i8::MIN as int, i8::MAX as int);
    lemma_int_text_parse(1, i32::MIN as int, i32::MAX as int);
    lemma_int_text_parse(e, i32::MIN as int, i32::MAX as int);
    lemma_effect_roundtrip(x.effects);
    let p = split(timing_line(tp), ',');
    assert(p == ps);
    assert(field(p, 6) == int_text(1));
    assert(field(p, 7) == int_text(e));
    assert(field(p, 0) == x.time@ && field(p, 1) == x.beat_length@);
}

/// A written green line reads back as the line.
#[verifier::spinoff_prover]
#[verifier::rlimit(50)]
proof fn lemma_green_line_roundtrip(x: GreenLine)
    requires
        clean_number(x.time@),
        clean_number(x.beat_length@),
    ensures
        ({
            let tp = TimingPoint::GreenLine(x);
            &&& timing_point_text(tp) == timing_line(tp) + seq!['\n']
            &&& one_line(timing_line(tp))
            &&& is_trimmed(timing_line(tp))
            &&& timing_line(tp).len() > 0
            &&& timing_line_ok(split(timing_line(tp), ','))
            &&& timing_point_matches(tp, split(timing_line(tp), ','))
        }),
{
    let tp = TimingPoint::GreenLine(x);
    reveal_strlit(",");
    reveal_strlit(",4,");
    reveal_strlit(",0,");
    reveal_strlit("\n");
    let e = effect_bits(x.effects) as int;
    let ps = seq![
        x.time@,
        x.beat_length@,
        int_text(4),
        int_text(x.sample_set as int),
        int_text(x.sample_index as int),
        int_text(x.volume as int),
        int_text(0),
        int_text(e),
    ];
    lemma_digit_text(4, seq!['4']);
    lemma_digit_text(0, seq!['0']);
    assert(timing_point_text(tp) =~= join8(ps) + seq!['\n']);
    assert(timing_line(tp) =~= join8(ps));
    lemma_int_field(4);
    lemma_int_field(x.sample_set as int);
    lemma_int_field(x.sample_index as int);
    lemma_int_field(x.volume as int);
    lemma_int_field(0);
    lemma_int_field(e);
    lemma_join8(ps);
    lemma_int_text_parse(4, i32::MIN as int, i32::MAX as int);
    lemma_int_text_parse(x.sample_set as int, i32::MIN as int, i32::MAX as int);
    lemma_int_text_parse(x.sample_index as int, i32::MIN as int, i32::MAX as int);
    lemma_int_text_parse(x.volume as int, i8::MIN as int, i8::MAX as int);
    lemma_int_text_parse(0, i32::MIN as int, i32::MAX as int);
    lemma_int_text_parse(e, i32::MIN as int, i32::MAX as int);
    lemma_effect_roundtrip(x.effects);
    let p = split(timing_line(tp), ',');
    assert(p == ps);
    assert(field(p, 6) == int_text(0));
    assert(field(p, 7) == int_text(e));
    assert(field(p, 0) == x.time@ && field(p, 1) == x.beat_length@);
}

/// A written timing point's line reads back as the point.
pub proof fn lemma_timing_point_roundtrip(tp: TimingPoint)
    requires
        timing_point_clean(tp),
    ensures
        timing_point_text(tp) == timing_line(tp) + seq!['\n'],
        one_line(timing_line(tp)),
        is_trimmed(timing_line(tp)),
        timing_line(tp).len() > 0,
        timing_line_ok(split(timing_line(tp), ',')),
        timing_point_matches(tp, split(timing_line(tp), ',')),
{
    match tp {
        TimingPoint::RedLine(x) => lemma_red_line_roundtrip(x),
        TimingPoint::GreenLine(x) => lemma_green_line_roundtrip(x),
    }
}

/// Every character of eight comma-joined pieces is a comma or a character of
/// a piece.
proof fn lemma_pieces_char(ps: Seq<Seq<char>>, i: int)
    requires
        ps.len() == 8,
        forall|j: int| 0 <= j < 8 ==> one_line(#[trigger] ps[j]),
        0 <= i < (ps[0] + seq![','] + ps[1] + seq![','] + ps[2] + seq![','] + ps[3] + seq![',']
            + ps[4] + seq![','] + ps[5] + seq![','] + ps[6] + seq![','] + ps[7]).len(),
    ensures
        (ps[0] + seq![','] + ps[1] + seq![','] + ps[2] + seq![','] + ps[3] + seq![','] + ps[4]
            + seq![','] + ps[5] + seq![','] + ps[6] + seq![','] + ps[7])[i] != '\n',
    decreases 0nat,
{
    let c = seq![','];
    let a1 = ps[0] + c;
    let a2 = a1 + ps[1] + c;
    let a3 = a2 + ps[2] + c;
    let a4 = a3 + ps[3] + c;
    let a5 = a4 + ps[4] + c;
    let a6 = a5 + ps[5] + c;
    let a7 = a6 + ps[6] + c;
    let l = a7 + ps[7];
    assert(one_line(ps[0]) && one_line(ps[1]) && one_line(ps[2]) && one_line(ps[3]));
    assert(one_line(ps[4]) && one_line(ps[5]) && one_line(ps[6]) && one_line(ps[7]));
    assert(one_line(a1));
    assert(one_line(a2));
    assert(one_line(a3));
    assert(one_line(a4));
    assert(one_line(a5));
    assert(one_line(a6));
    assert(one_line(a7));
    assert(one_line(l));
}

/// Eight comma-joined pieces, the first and last trimmed and the last not
/// empty, have no whitespace at their ends.
proof fn lemma_pieces_ends(ps: Seq<Seq<char>>)
    requires
        ps.len() == 8,
        is_trimmed(ps[0]),
        is_trimmed(ps[7]),
        ps[7].len() > 0,
    ensures
        is_trimmed(
            ps[0] + seq![','] + ps[1] + seq![','] + ps[2] + seq![','] + ps[3] + seq![','] + ps[4]
                + seq![','] + ps[5] + seq![','] + ps[6] + seq![','] + ps[7],
        ),
        (ps[0] + seq![','] + ps[1] + seq![','] + ps[2] + seq![','] + ps[3] + seq![','] + ps[4]
            + seq![','] + ps[5] + seq![','] + ps[6] + seq![','] + ps[7]).len() > 0,
{
    let c = seq![','];
    let l = ps[0] + c + ps[1] + c + ps[2] + c + ps[3] + c + ps[4] + c + ps[5] + c + ps[6] + c
        + ps[7];
    if ps[0].len() > 0 {
        assert(l[0] == ps[0][0]);
    } else {
        assert(l[0] == ',');
    }
    assert(l.last() == ps[7].last());
}

/// The lines of the points' text are the points' lines.
proof fn lemma_timing_lines(ps: Seq<TimingPoint>)
    requires
        forall|i: int| 0 <= i < ps.len() ==> timing_point_clean(#[trigger] ps[i]),
    ensures
        lines(timing_points_text(ps)) == ps.map_values(|tp: TimingPoint| timing_line(tp)),
        timing_points_text(ps).len() == 0 || timing_points_text(ps).last() == '\n',
    decreases ps.len(),
{
    let lns = ps.map_values(|tp: TimingPoint| timing_line(tp));
    if ps.len() == 0 {
        assert(lines(timing_points_text(ps)) =~= lns);
    } else {
        let init = ps.drop_last();
        assert forall|i: int| 0 <= i < init.len() implies timing_point_clean(#[trigger] init[i]) by {
            assert(init[i] == ps[i]);
        }
        lemma_timing_lines(init);
        assert(timing_point_clean(ps.last()));
        lemma_timing_point_roundtrip(ps.last());
        let last = timing_point_text(ps.last());
        lemma_lines_append(timing_points_text(init), last);
        lemma_lines_cons(timing_line(ps.last()), seq![]);
        assert(timing_line(ps.last()) + seq!['\n'] + seq![] =~= last);
        assert(lines(Seq::<char>::empty()) =~= Seq::<Seq<char>>::empty());
        assert(strip_cr(timing_line(ps.last())) == timing_line(ps.last())) by {
            if timing_line(ps.last()).len() > 0 {
                assert(!is_ws(timing_line(ps.last()).last()));
            }
        }
        assert(lines(timing_points_text(ps)) =~= lns);
    }
}

/// Trimmed, non-empty lines are their own content lines.
pub(crate) proof fn lemma_content_all(ls: Seq<Seq<char>>)
    requires
        forall|i: int| 0 <= i < ls.len() ==> is_trimmed(#[trigger] ls[i]) && ls[i].len() > 0,
    ensures
        content_lines(ls) == ls,
    decreases ls.len(),
{
    if ls.len() > 0 {
        let init = ls.drop_last();
        assert forall|i: int| 0 <= i < init.len() implies is_trimmed(#[trigger] init[i])
            && init[i].len() > 0 by {
            assert(init[i] == ls[i]);
        }
        lemma_content_all(init);
        assert(is_trimmed(ls.last()) && ls.last().len() > 0);
        lemma_trim_trimmed(ls.last());
        assert(init.push(ls.last()) =~= ls);
    }
}

/// Reading the `[TimingPoints]` lines that `TimingSection::to_osu_text` writes
/// gives back the points, where their times and beat lengths are on one line,
/// without commas and without whitespace at their ends: every line is
/// accepted, and each reads back as its point (a green line's meter, which the
/// writer gives as 4, is not kept).
pub proof fn lemma_timing_roundtrip(ps: Seq<TimingPoint>)
    requires
        forall|i: int| 0 <= i < ps.len() ==> timing_point_clean(#[trigger] ps[i]),
    ensures
        timing_section_ok(timing_points_text(ps)),
        timing_points_match(ps, content_lines(lines(timing_points_text(ps)))),
{
    lemma_timing_lines(ps);
    let lns = ps.map_values(|tp: TimingPoint| timing_line(tp));
    assert forall|i: int| 0 <= i < lns.len() implies is_trimmed(#[trigger] lns[i]) && lns[i].len()
        > 0 by {
        assert(timing_point_clean(ps[i]));
        lemma_timing_point_roundtrip(ps[i]);
    }
    lemma_content_all(lns);
    assert forall|i: int| 0 <= i < lns.len() implies timing_line_ok(split(#[trigger] lns[i], ','))
        && timing_point_matches(ps[i], split(lns[i], ',')) by {
        assert(timing_point_clean(ps[i]));
        lemma_timing_point_roundtrip(ps[i]);
    }
}

/// The value of a colour line: `r,g,b`.
pub open spec fn colour_value(c: Colour) -> Seq<char> {
    c.r@ + seq![','] + c.g@ + seq![','] + c.b@
}

/// A colour whose channels read back: clean fields, the first and last not
/// empty.
pub open spec fn colour_clean(c: Colour) -> bool {
    clean_number(c.r@) && clean_number(c.g@) && clean_number(c.b@)
}

/// A combo key is trimmed, on one line, without `:` and not empty.
proof fn lemma_combo_key_clean(n: nat)
    ensures
        is_trimmed(combo_key(n)),
        one_line(combo_key(n)),
        forall|i: int| 0 <= i < combo_key(n).len() ==> combo_key(n)[i] != ':',
        combo_key(n).len() > 0,
{
    reveal_strlit("Combo");
    lemma_nat_text(n);
    let k = combo_key(n);
    let t = nat_text(n);
    assert forall|i: int| 0 <= i < k.len() implies k[i] != '\n' && k[i] != ':' && !is_ws(k[i]) by {
        if i >= 5 {
            assert(k[i] == t[i - 5]);
        }
    }
}

/// Trimming a trimmed, non-empty text with one space after it gives the text.
proof fn lemma_trim_space_after(k: Seq<char>)
    requires
        is_trimmed(k),
        k.len() > 0,
    ensures
        trim(k + seq![' ']) == k,
{
    let s = k + seq![' '];
    lemma_lead_ws_char(s, 0);
    assert(s.skip(0) =~= s);
    assert(s[s.len() - 1] == ' ');
    assert(s[s.len() - 2] == k.last());
    lemma_trail_ws_char(s, 1);
    assert(s.take(s.len() - 1) =~= k);
}

/// Trimming a trimmed text with one space before it gives the text.
proof fn lemma_trim_space_before(v: Seq<char>)
    requires
        is_trimmed(v),
    ensures
        trim(seq![' '] + v) == v,
{
    let s = seq![' '] + v;
    if v.len() > 0 {
        assert(s[1] == v[0]);
    }
    lemma_lead_ws_char(s, 1);
    assert(s.skip(1) =~= v);
    lemma_trim_trimmed(v);
}

/// The line of a colour, without its line break, and what it reads as.
proof fn lemma_colour_line(i: nat, c: Colour)
    requires
        colour_clean(c),
    ensures
        colour_line(i, c) == combo_key(i + 1) + seq![' ', ':', ' '] + colour_value(c) + seq!['\n'],
        one_line(combo_key(i + 1) + seq![' ', ':', ' '] + colour_value(c)),
        key_value_line(combo_key(i + 1) + seq![' ', ':', ' '] + colour_value(c)) == Some(
            (combo_key(i + 1), colour_value(c)),
        ),
        is_trimmed(colour_value(c)),
        colour_ok(colour_value(c)),
        colour_matches(c, colour_value(c)),
{
    reveal_strlit(" : ");
    reveal_strlit(",");
    reveal_strlit("\n");
    let k = combo_key(i + 1);
    let v = colour_value(c);
    let l = k + seq![' ', ':', ' '] + v;
    assert(colour_line(i, c) =~= l + seq!['\n']);
    lemma_combo_key_clean(i + 1);
    // The value splits into the three channels.
    lemma_split_single(c.b@, ',');
    lemma_split_cons(c.g@, ',', c.b@);
    lemma_split_cons(c.r@, ',', c.g@ + seq![','] + c.b@);
    assert(v =~= c.r@ + seq![','] + (c.g@ + seq![','] + c.b@));
    assert(split(v, ',') =~= seq![c.r@, c.g@, c.b@]);
    lemma_trim_trimmed(c.r@);
    lemma_trim_trimmed(c.g@);
    lemma_trim_trimmed(c.b@);
    // The value has no whitespace at its ends.
    if c.r@.len() > 0 {
        assert(v[0] == c.r@[0]);
    } else {
        assert(v[0] == ',');
    }
    if c.b@.len() > 0 {
        assert(v.last() == c.b@.last());
    } else {
        assert(v.last() == ',');
    }
    assert forall|j: int| 0 <= j < v.len() implies v[j] != '\n' by {
        let a = c.r@.len() as int;
        let b = a + 1 + c.g@.len();
        if j < a {
            assert(v[j] == c.r@[j]);
        } else if a < j < b {
            assert(v[j] == c.g@[j - a - 1]);
        } else if j > b {
            assert(v[j] == c.b@[j - b - 1]);
        }
    }
    assert forall|j: int| 0 <= j < l.len() implies l[j] != '\n' by {
        let a = k.len() as int;
        if j < a {
            assert(l[j] == k[j]);
        } else if j >= a + 3 {
            assert(l[j] == v[j - a - 3]);
        }
    }
    // Its first `:` follows the key and a space.
    assert forall|j: int| 0 <= j < k.len() + 1 implies #[trigger] l[j] != ':' by {
        if j < k.len() {
            assert(l[j] == k[j]);
        }
    }
    lemma_first_index(l, ':', k.len() as int + 1);
    assert(l.take(k.len() as int + 1) =~= k + seq![' ']);
    assert(l.skip(k.len() as int + 2) =~= seq![' '] + v);
    lemma_trim_space_after(k);
    lemma_trim_space_before(v);
}

/// The pairs that the colour lines read as.
pub open spec fn colour_pairs(cs: Seq<Colour>) -> Seq<(Seq<char>, Seq<char>)> {
    Seq::new(cs.len(), |i: int| (combo_key((i + 1) as nat), colour_value(cs[i])))
}

/// The lines of the colours' text read back as their pairs.
proof fn lemma_colours_lines(cs: Seq<Colour>)
    requires
        forall|i: int| 0 <= i < cs.len() ==> colour_clean(#[trigger] cs[i]),
    ensures
        key_value_list(lines(colours_text(cs))) == Some(colour_pairs(cs)),
        colours_text(cs).len() == 0 || colours_text(cs).last() == '\n',
    decreases cs.len(),
{
    if cs.len() == 0 {
        assert(lines(colours_text(cs)) =~= Seq::<Seq<char>>::empty());
        assert(colour_pairs(cs) =~= Seq::<(Seq<char>, Seq<char>)>::empty());
    } else {
        let init = cs.drop_last();
        let n = (cs.len() - 1) as nat;
        assert forall|i: int| 0 <= i < init.len() implies colour_clean(#[trigger] init[i]) by {
            assert(init[i] == cs[i]);
        }
        lemma_colours_lines(init);
        assert(colour_clean(cs.last()));
        lemma_colour_line(n, cs.last());
        let l = combo_key(n + 1) + seq![' ', ':', ' '] + colour_value(cs.last());
        lemma_lines_append(colours_text(init), colour_line(n, cs.last()));
        lemma_lines_cons(l, seq![]);
        assert(l + seq!['\n'] + seq![] =~= colour_line(n, cs.last()));
        assert(lines(Seq::<char>::empty()) =~= Seq::<Seq<char>>::empty());
        assert(strip_cr(l) == l) by {
            assert(l.last() == colour_value(cs.last()).last());
        }
        let ls = lines(colours_text(cs));
        assert(ls =~= lines(colours_text(init)).push(l));
        assert(ls.drop_last() =~= lines(colours_text(init)));
        let prev = colour_pairs(init);
        if has_key(prev, combo_key(n + 1)) {
            let j = choose|j: int| 0 <= j < prev.len() && #[trigger] prev[j].0 == combo_key(n + 1);
            lemma_combo_key_injective((j + 1) as nat, n + 1);
        }
        assert(prev.push((combo_key(n + 1), colour_value(cs.last()))) =~= colour_pairs(cs));
    }
}

/// Reading the `[Colours]` lines that `ColoursSection::to_osu_text` writes
/// gives back the colours, where each channel is on one line, without commas
/// and without whitespace at its ends: the section is accepted, holds exactly
/// as many combo colours, and each reads back as its colour.
pub proof fn lemma_colours_roundtrip(cs: Seq<Colour>)
    requires
        forall|i: int| 0 <= i < cs.len() ==> colour_clean(#[trigger] cs[i]),
    ensures
        key_value_pairs(colours_text(cs)) == Some(colour_pairs(cs)),
        colours_section_ok(colours_text(cs)),
        combo_count_is(colour_pairs(cs), cs.len()),
        forall|k: int|
            0 <= k < cs.len() ==> colour_matches(
                #[trigger] cs[k],
                lookup(colour_pairs(cs), combo_key((k + 1) as nat)).unwrap(),
            ),
{
    lemma_colours_lines(cs);
    let p = colour_pairs(cs);
    assert(distinct_keys(p)) by {
        assert forall|i: int, j: int| 0 <= i < j < p.len() implies p[i].0 != p[j].0 by {
            lemma_combo_key_injective((i + 1) as nat, (j + 1) as nat);
        }
    }
    assert forall|k: int| 0 <= k < cs.len() implies lookup(p, combo_key((k + 1) as nat)) == Some(
        colour_value(cs[k]),
    ) by {
        lemma_lookup_distinct(p, k);
    }
    assert forall|k: int| 0 <= k < cs.len() implies colour_matches(
        #[trigger] cs[k],
        lookup(p, combo_key((k + 1) as nat)).unwrap(),
    ) by {
        assert(colour_clean(cs[k]));
        lemma_colour_line(k as nat, cs[k]);
        lemma_lookup_distinct(p, k);
    }
    assert forall|k: nat| 1 <= k <= cs.len() implies lookup(p, #[trigger] combo_key(k)) is Some by {
        lemma_lookup_distinct(p, k - 1);
    }
    assert(lookup(p, combo_key(cs.len() + 1)) is None) by {
        assert forall|i: int| 0 <= i < p.len() implies #[trigger] p[i].0 != combo_key(cs.len() + 1) by {
            lemma_combo_key_injective((i + 1) as nat, cs.len() + 1);
        }
        lemma_lookup_absent(p, combo_key(cs.len() + 1));
    }
    assert forall|k: nat|
        #![trigger combo_key(k)]
        1 <= k && (forall|j: nat| 1 <= j <= k ==> lookup(p, #[trigger] combo_key(j)) is Some)
            implies colour_ok(lookup(p, combo_key(k)).unwrap()) by {
        if k > cs.len() {
            assert(lookup(p, combo_key(cs.len() + 1)) is Some);
        } else {
            assert(colour_clean(cs[k - 1]));
            lemma_colour_line((k - 1) as nat, cs[k - 1]);
            lemma_lookup_distinct(p, k - 1);
        }
    }
}

} // verus!
