//! Reading back the `[HitObjects]` lines that the writer writes.
use vstd::prelude::*;
use crate::text::{field, int_text, is_ws, lines, split, strip_cr, content_lines};
use crate::dotosu::roundtrip::{
    clean_field, is_trimmed, lemma_int_field, lemma_lines_append, lemma_lines_cons,
    lemma_split_cons, lemma_split_single, lemma_trim_trimmed, one_line, lemma_hit_sample_roundtrip,
    lemma_content_all, lemma_int_text_clean,
};
use crate::text::lemma_int_text_parse;
use crate::dotosu::objects::{
    Circle, EdgeSet, HitObject, HitSample, Hitsound, Point, Slider, Spinner, Type,
    circle_text, curve_text, edge_set_text, edge_sets_text, edge_sounds_text, hit_object_line_ok,
    hit_object_matches, hit_object_text, hit_objects_match, hit_objects_text, hit_sample_matches,
    hit_sample_text, hitsound_bits, hitsound_of, lemma_hitsound_roundtrip, lemma_type_roundtrip,
    objects_section_ok, one_kind, slider_text, spinner_text, type_bits, type_of_bits,
    curve_pieces, edge_sound_pieces, edge_set_pieces, slider_parts_ok, slider_parts_match,
    curve_point_ok, curve_points_match, edge_set_ok, edge_sets_match, edge_sounds_ok,
    edge_sounds_match, u8_value, u64_value, i32_value,
};

use crate::float_syntax::float_text;

verus! {

/// Text without the character `c`.
pub open spec fn free_of(s: Seq<char>, c: char) -> bool {
    forall|i: int| 0 <= i < s.len() ==> s[i] != c
}

/// Pieces joined by `c`.
pub open spec fn join(ps: Seq<Seq<char>>, c: char) -> Seq<char>
    decreases ps.len(),
{
    if ps.len() == 0 {
        seq![]
    } else if ps.len() == 1 {
        ps[0]
    } else {
        ps[0] + seq![c] + join(ps.drop_first(), c)
    }
}

/// Pieces without `c`, joined by `c`, split back into themselves.
pub proof fn lemma_join_split(ps: Seq<Seq<char>>, c: char)
    requires
        ps.len() >= 1,
        forall|j: int| 0 <= j < ps.len() ==> free_of(#[trigger] ps[j], c),
    ensures
        split(join(ps, c), c) == ps,
    decreases ps.len(),
{
    assert(free_of(ps[0], c));
    if ps.len() == 1 {
        lemma_split_single(ps[0], c);
        assert(seq![ps[0]] =~= ps);
    } else {
        let rest = ps.drop_first();
        assert forall|j: int| 0 <= j < rest.len() implies free_of(#[trigger] rest[j], c) by {
            assert(rest[j] == ps[j + 1]);
        }
        lemma_join_split(rest, c);
        lemma_split_cons(ps[0], c, join(rest, c));
        assert(seq![ps[0]] + rest =~= ps);
    }
}

/// Joining pieces without `d` by another character gives text without `d`.
pub proof fn lemma_join_free(ps: Seq<Seq<char>>, c: char, d: char)
    requires
        c != d,
        forall|j: int| 0 <= j < ps.len() ==> free_of(#[trigger] ps[j], d),
    ensures
        free_of(join(ps, c), d),
    decreases ps.len(),
{
    if ps.len() == 1 {
        assert(free_of(ps[0], d));
    } else if ps.len() > 1 {
        let rest = ps.drop_first();
        assert forall|j: int| 0 <= j < rest.len() implies free_of(#[trigger] rest[j], d) by {
            assert(rest[j] == ps[j + 1]);
        }
        lemma_join_free(rest, c, d);
        assert(free_of(ps[0], d));
        let a = ps[0];
        let b = join(rest, c);
        let s = a + seq![c] + b;
        assert forall|i: int| 0 <= i < s.len() implies s[i] != d by {
            if i < a.len() {
                assert(s[i] == a[i]);
            } else if i > a.len() {
                assert(s[i] == b[i - a.len() - 1]);
            }
        }
    }
}

/// Trimmed pieces joined by a character that is no whitespace are trimmed.
pub proof fn lemma_join_trimmed(ps: Seq<Seq<char>>, c: char)
    requires
        !is_ws(c),
        forall|j: int| 0 <= j < ps.len() ==> is_trimmed(#[trigger] ps[j]),
    ensures
        is_trimmed(join(ps, c)),
    decreases ps.len(),
{
    if ps.len() == 1 {
        assert(is_trimmed(ps[0]));
    } else if ps.len() > 1 {
        let rest = ps.drop_first();
        assert forall|j: int| 0 <= j < rest.len() implies is_trimmed(#[trigger] rest[j]) by {
            assert(rest[j] == ps[j + 1]);
        }
        lemma_join_trimmed(rest, c);
        assert(is_trimmed(ps[0]));
        let a = ps[0];
        let b = join(rest, c);
        let s = a + seq![c] + b;
        if a.len() > 0 {
            assert(s[0] == a[0]);
        } else {
            assert(s[0] == c);
        }
        if b.len() > 0 {
            assert(s.last() == b.last());
        } else {
            assert(s.last() == c);
        }
    }
}

/// Appending a piece appends the separator and the piece.
pub proof fn lemma_join_push(ps: Seq<Seq<char>>, x: Seq<char>, c: char)
    requires
        ps.len() >= 1,
    ensures
        join(ps.push(x), c) == join(ps, c) + seq![c] + x,
    decreases ps.len(),
{
    if ps.len() == 1 {
        assert(ps.push(x).drop_first() =~= seq![x]);
        assert(ps.push(x)[0] == ps[0]);
        assert(join(seq![x], c) == x);
        assert(join(ps, c) == ps[0]);
        assert(join(ps.push(x), c) =~= join(ps, c) + seq![c] + x);
    } else {
        assert(ps.push(x).drop_first() =~= ps.drop_first().push(x));
        lemma_join_push(ps.drop_first(), x, c);
        assert(join(ps.push(x), c) =~= join(ps, c) + seq![c] + x);
    }
}

/// The join of the first `k + 1` pieces extends that of the first `k`.
pub proof fn lemma_join_take(ps: Seq<Seq<char>>, k: int, c: char)
    requires
        1 <= k < ps.len(),
    ensures
        join(ps.take(k + 1), c) == join(ps.take(k), c) + seq![c] + ps[k],
        join(ps.take(1), c) == ps[0],
{
    assert(ps.take(k).push(ps[k]) =~= ps.take(k + 1));
    lemma_join_push(ps.take(k), ps[k], c);
    assert(ps.take(1) =~= seq![ps[0]]);
}

/// The text of a curve point: `x:y`.
pub open spec fn point_text(pt: Point) -> Seq<char> {
    pt.x@ + seq![':'] + pt.y@
}

/// The curve's text is its type and its points, `|`-separated.
proof fn lemma_curve_text(ct: Seq<char>, pts: Seq<Point>)
    ensures
        curve_text(ct, pts) == join(seq![ct] + pts.map_values(|pt: Point| point_text(pt)), '|'),
    decreases pts.len(),
{
    reveal_strlit("|");
    reveal_strlit(":");
    let ps = seq![ct] + pts.map_values(|pt: Point| point_text(pt));
    if pts.len() == 0 {
        assert(ps =~= seq![ct]);
    } else {
        let init = pts.drop_last();
        lemma_curve_text(ct, init);
        let pi = seq![ct] + init.map_values(|pt: Point| point_text(pt));
        assert(ps =~= pi.push(point_text(pts.last())));
        lemma_join_push(pi, point_text(pts.last()), '|');
        assert(curve_text(ct, pts) =~= join(pi, '|') + seq!['|'] + point_text(pts.last()));
    }
}

/// The edge sounds' text, where there is at least one.
proof fn lemma_edge_sounds_text(hs: Seq<Hitsound>)
    requires
        hs.len() >= 1,
    ensures
        edge_sounds_text(hs) == join(
            hs.map_values(|h: Hitsound| int_text(hitsound_bits(h) as int)),
            '|',
        ),
    decreases hs.len(),
{
    reveal_strlit("|");
    let ps = hs.map_values(|h: Hitsound| int_text(hitsound_bits(h) as int));
    if hs.len() == 1 {
        assert(ps =~= seq![int_text(hitsound_bits(hs[0]) as int)]);
    } else {
        let init = hs.drop_last();
        lemma_edge_sounds_text(init);
        let pi = init.map_values(|h: Hitsound| int_text(hitsound_bits(h) as int));
        assert(ps =~= pi.push(int_text(hitsound_bits(hs.last()) as int)));
        lemma_join_push(pi, int_text(hitsound_bits(hs.last()) as int), '|');
    }
}

/// The edge sets' text, where there is at least one.
proof fn lemma_edge_sets_text(es: Seq<EdgeSet>)
    requires
        es.len() >= 1,
    ensures
        edge_sets_text(es) == join(es.map_values(|e: EdgeSet| edge_set_text(e)), '|'),
    decreases es.len(),
{
    reveal_strlit("|");
    let ps = es.map_values(|e: EdgeSet| edge_set_text(e));
    if es.len() == 1 {
        assert(ps =~= seq![edge_set_text(es[0])]);
    } else {
        let init = es.drop_last();
        lemma_edge_sets_text(init);
        let pi = init.map_values(|e: EdgeSet| edge_set_text(e));
        assert(ps =~= pi.push(edge_set_text(es.last())));
        lemma_join_push(pi, edge_set_text(es.last()), '|');
    }
}

/// The text of an integer has none of the separators of a hit object line.
proof fn lemma_int_plain(n: int)
    ensures
        free_of(int_text(n), ','),
        free_of(int_text(n), '|'),
        free_of(int_text(n), ':'),
        one_line(int_text(n)),
        is_trimmed(int_text(n)),
        int_text(n).len() > 0,
{
    lemma_int_text_clean(n);
}

/// A file name that a hit sample reads back: a clean field without `:`.
pub open spec fn sample_name_clean(f: Seq<char>) -> bool {
    clean_field(f) && free_of(f, ':')
}

/// A written hit sample is one trimmed line without commas, and reads back.
proof fn lemma_hit_sample_piece(hs: HitSample)
    requires
        sample_name_clean(hs.filename@),
    ensures
        free_of(hit_sample_text(hs), ','),
        one_line(hit_sample_text(hs)),
        is_trimmed(hit_sample_text(hs)),
        hit_sample_matches(hs, hit_sample_text(hs)),
{
    reveal_strlit(":");
    let ps = seq![
        int_text(hs.normal_set as int),
        int_text(hs.addition_set as int),
        int_text(hs.index as int),
        int_text(hs.volume as int),
        hs.filename@,
    ];
    reveal_with_fuel(join, 6);
    assert(hit_sample_text(hs) =~= join(ps, ':'));
    lemma_int_plain(hs.normal_set as int);
    lemma_int_plain(hs.addition_set as int);
    lemma_int_plain(hs.index as int);
    lemma_int_plain(hs.volume as int);
    assert(free_of(hs.filename@, ','));
    lemma_join_free(ps, ':', ',');
    lemma_join_free(ps, ':', '\n');
    lemma_join_trimmed(ps, ':');
    lemma_hit_sample_roundtrip(hs);
}

/// A curve point that reads back: clean coordinates that read as numbers,
/// without `|` or `:`.
pub open spec fn point_clean(pt: Point) -> bool {
    &&& clean_field(pt.x@) && float_text(pt.x@)
    &&& clean_field(pt.y@) && float_text(pt.y@)
    &&& free_of(pt.x@, '|')
    &&& free_of(pt.y@, '|')
    &&& free_of(pt.x@, ':')
    &&& free_of(pt.y@, ':')
}

/// A curve point's text splits into its coordinates.
proof fn lemma_point_piece(pt: Point)
    requires
        point_clean(pt),
    ensures
        split(point_text(pt), ':') == seq![pt.x@, pt.y@],
        free_of(point_text(pt), ','),
        free_of(point_text(pt), '|'),
        free_of(point_text(pt), '\n'),
        is_trimmed(point_text(pt)),
        field(split(point_text(pt), ':'), 0) == pt.x@,
        field(split(point_text(pt), ':'), 1) == pt.y@,
{
    let ps = seq![pt.x@, pt.y@];
    reveal_with_fuel(join, 3);
    assert(point_text(pt) =~= join(ps, ':'));
    assert(ps[0] == pt.x@ && ps[1] == pt.y@);
    lemma_join_split(ps, ':');
    lemma_join_free(ps, ':', ',');
    lemma_join_free(ps, ':', '|');
    lemma_join_free(ps, ':', '\n');
    lemma_join_trimmed(ps, ':');
    lemma_trim_trimmed(pt.x@);
    lemma_trim_trimmed(pt.y@);
}

/// A curve that reads back: a type on one line without `,` or `|` or
/// whitespace at its ends, and at least one clean point.
pub open spec fn curve_clean(ct: Seq<char>, pts: Seq<Point>) -> bool {
    &&& one_line(ct)
    &&& is_trimmed(ct)
    &&& free_of(ct, ',')
    &&& free_of(ct, '|')
    &&& pts.len() >= 1
    &&& forall|i: int| 0 <= i < pts.len() ==> point_clean(#[trigger] pts[i])
}

/// The pieces of a curve's text.
pub open spec fn curve_pieces_of(ct: Seq<char>, pts: Seq<Point>) -> Seq<Seq<char>> {
    seq![ct] + pts.map_values(|pt: Point| point_text(pt))
}

/// A written curve is one trimmed line without commas, and splits into its
/// type and its points' texts.
proof fn lemma_curve_piece(ct: Seq<char>, pts: Seq<Point>)
    requires
        curve_clean(ct, pts),
    ensures
        free_of(curve_text(ct, pts), ','),
        one_line(curve_text(ct, pts)),
        is_trimmed(curve_text(ct, pts)),
        split(curve_text(ct, pts), '|') == curve_pieces_of(ct, pts),
{
    let ps = curve_pieces_of(ct, pts);
    lemma_curve_text(ct, pts);
    assert forall|j: int| 0 <= j < ps.len() implies free_of(#[trigger] ps[j], '|') && free_of(
        ps[j],
        ',',
    ) && free_of(ps[j], '\n') && is_trimmed(ps[j]) by {
        if j == 0 {
            assert(ps[0] == ct);
        } else {
            assert(ps[j] == point_text(pts[j - 1]));
            assert(point_clean(pts[j - 1]));
            lemma_point_piece(pts[j - 1]);
        }
    }
    lemma_join_split(ps, '|');
    lemma_join_free(ps, '|', ',');
    lemma_join_free(ps, '|', '\n');
    lemma_join_trimmed(ps, '|');
}

/// The pieces of edge sounds.
pub open spec fn edge_sound_pieces_of(hs: Seq<Hitsound>) -> Seq<Seq<char>> {
    hs.map_values(|h: Hitsound| int_text(hitsound_bits(h) as int))
}

/// Written edge sounds are one trimmed line without commas and split into
/// their bits.
proof fn lemma_edge_sounds_piece(hs: Seq<Hitsound>)
    requires
        hs.len() >= 1,
    ensures
        free_of(edge_sounds_text(hs), ','),
        one_line(edge_sounds_text(hs)),
        is_trimmed(edge_sounds_text(hs)),
        split(edge_sounds_text(hs), '|') == edge_sound_pieces_of(hs),
{
    let ps = edge_sound_pieces_of(hs);
    lemma_edge_sounds_text(hs);
    assert forall|j: int| 0 <= j < ps.len() implies free_of(#[trigger] ps[j], '|') && free_of(
        ps[j],
        ',',
    ) && free_of(ps[j], '\n') && is_trimmed(ps[j]) by {
        lemma_int_plain(hitsound_bits(hs[j]) as int);
    }
    lemma_join_split(ps, '|');
    lemma_join_free(ps, '|', ',');
    lemma_join_free(ps, '|', '\n');
    lemma_join_trimmed(ps, '|');
}

/// The pieces of edge sets.
pub open spec fn edge_set_pieces_of(es: Seq<EdgeSet>) -> Seq<Seq<char>> {
    es.map_values(|e: EdgeSet| edge_set_text(e))
}

/// An edge set's text splits into its two numbers.
proof fn lemma_edge_set_piece(e: EdgeSet)
    ensures
        split(edge_set_text(e), ':') == seq![int_text(e.normal_set as int), int_text(e.addition_set as int)],
        free_of(edge_set_text(e), ','),
        free_of(edge_set_text(e), '|'),
        free_of(edge_set_text(e), '\n'),
        is_trimmed(edge_set_text(e)),
{
    reveal_strlit(":");
    let ps = seq![int_text(e.normal_set as int), int_text(e.addition_set as int)];
    reveal_with_fuel(join, 3);
    assert(edge_set_text(e) =~= join(ps, ':'));
    lemma_int_plain(e.normal_set as int);
    lemma_int_plain(e.addition_set as int);
    lemma_join_split(ps, ':');
    lemma_join_free(ps, ':', ',');
    lemma_join_free(ps, ':', '|');
    lemma_join_free(ps, ':', '\n');
    lemma_join_trimmed(ps, ':');
}

/// Written edge sets are one trimmed line without commas and split into the
/// sets' texts.
proof fn lemma_edge_sets_piece(es: Seq<EdgeSet>)
    requires
        es.len() >= 1,
    ensures
        free_of(edge_sets_text(es), ','),
        one_line(edge_sets_text(es)),
        is_trimmed(edge_sets_text(es)),
        split(edge_sets_text(es), '|') == edge_set_pieces_of(es),
{
    let ps = edge_set_pieces_of(es);
    lemma_edge_sets_text(es);
    assert forall|j: int| 0 <= j < ps.len() implies free_of(#[trigger] ps[j], '|') && free_of(
        ps[j],
        ',',
    ) && free_of(ps[j], '\n') && is_trimmed(ps[j]) by {
        lemma_edge_set_piece(es[j]);
    }
    lemma_join_split(ps, '|');
    lemma_join_free(ps, '|', ',');
    lemma_join_free(ps, '|', '\n');
    lemma_join_trimmed(ps, '|');
}

/// The colour skip is one that the three type bits hold.
pub open spec fn skip_fits(skip: i8) -> bool {
    0 <= skip < 8
}

/// A hit object whose texts read back: the decimal texts are clean fields
/// that read as numbers,
/// the hit sample's file name has no `:`, the colour skip fits its three bits,
/// and a slider has at least one curve point, edge sound and edge set, with a
/// curve that reads back.
pub open spec fn hit_object_clean(o: HitObject) -> bool {
    match o {
        HitObject::Circle(c) => {
            &&& clean_field(c.pos.x@) && float_text(c.pos.x@)
            &&& clean_field(c.pos.y@) && float_text(c.pos.y@)
            &&& clean_field(c.time@) && float_text(c.time@)
            &&& sample_name_clean(c.hitsample.filename@)
            &&& skip_fits(c.combo_info.color_skip)
        },
        HitObject::Slider(sl) => {
            &&& clean_field(sl.pos.x@) && float_text(sl.pos.x@)
            &&& clean_field(sl.pos.y@) && float_text(sl.pos.y@)
            &&& clean_field(sl.time@) && float_text(sl.time@)
            &&& clean_field(sl.length_pixels@) && float_text(sl.length_pixels@)
            &&& curve_clean(sl.curve_type@, sl.curve_points@)
            &&& sl.edge_sounds.len() >= 1
            &&& sl.edge_sets.len() >= 1
            &&& sample_name_clean(sl.hitsample.filename@)
            &&& skip_fits(sl.combo_info.color_skip)
        },
        HitObject::Spinner(sp) => {
            &&& clean_field(sp.x@) && float_text(sp.x@)
            &&& clean_field(sp.y@) && float_text(sp.y@)
            &&& clean_field(sp.time@) && float_text(sp.time@)
            &&& clean_field(sp.end_time@) && float_text(sp.end_time@)
            &&& sample_name_clean(sp.hitsample.filename@)
            &&& skip_fits(sp.combo_info.color_skip)
        },
    }
}

/// A hit object's line without its line break.
pub open spec fn object_line(o: HitObject) -> Seq<char> {
    hit_object_text(o).drop_last()
}

/// What a written hit object's line is and reads as.
pub open spec fn object_line_reads_back(o: HitObject) -> bool {
    &&& hit_object_text(o) == object_line(o) + seq!['\n']
    &&& one_line(object_line(o))
    &&& is_trimmed(object_line(o))
    &&& object_line(o).len() > 0
    &&& hit_object_line_ok(split(object_line(o), ','))
    &&& hit_object_matches(o, split(object_line(o), ','))
}

/// Clean pieces joined by commas: the line's facts.
proof fn lemma_line_pieces(ps: Seq<Seq<char>>)
    requires
        ps.len() >= 2,
        forall|j: int| 0 <= j < ps.len() ==> free_of(#[trigger] ps[j], ',') && one_line(ps[j])
            && is_trimmed(ps[j]),
    ensures
        split(join(ps, ','), ',') == ps,
        one_line(join(ps, ',')),
        is_trimmed(join(ps, ',')),
        join(ps, ',').len() > 0,
        forall|j: int| 0 <= j < ps.len() ==> #[trigger] field(ps, j) == ps[j],
{
    lemma_join_split(ps, ',');
    assert forall|j: int| 0 <= j < ps.len() implies free_of(#[trigger] ps[j], '\n') by {
        assert(one_line(ps[j]));
    }
    lemma_join_free(ps, ',', '\n');
    lemma_join_trimmed(ps, ',');
    assert(join(ps, ',') == ps[0] + seq![','] + join(ps.drop_first(), ','));
    assert forall|j: int| 0 <= j < ps.len() implies #[trigger] field(ps, j) == ps[j] by {
        assert(is_trimmed(ps[j]));
        lemma_trim_trimmed(ps[j]);
    }
}

/// A written circle reads back.
#[verifier::spinoff_prover]
proof fn lemma_circle_roundtrip(c: Circle)
    requires
        hit_object_clean(HitObject::Circle(c)),
    ensures
        object_line_reads_back(HitObject::Circle(c)),
{
    reveal_strlit(",");
    reveal_strlit("\n");
    let o = HitObject::Circle(c);
    let t = Type {
        circle: true,
        slider: false,
        spinner: false,
        mania_hold: false,
        combo_info: c.combo_info,
    };
    let ps = seq![
        c.pos.x@,
        c.pos.y@,
        c.time@,
        int_text(type_bits(t) as int),
        int_text(hitsound_bits(c.hitsound) as int),
        hit_sample_text(c.hitsample),
    ];
    reveal_with_fuel(join, 7);
    assert(circle_text(c) =~= join(ps, ',') + seq!['\n']);
    assert(object_line(o) =~= join(ps, ','));
    lemma_int_plain(type_bits(t) as int);
    lemma_int_plain(hitsound_bits(c.hitsound) as int);
    lemma_hit_sample_piece(c.hitsample);
    assert(free_of(c.pos.x@, ',') && free_of(c.pos.y@, ',') && free_of(c.time@, ','));
    lemma_line_pieces(ps);
    let p = split(object_line(o), ',');
    assert(p == ps);
    assert(field(p, 3) == ps[3] && field(p, 4) == ps[4]);
    lemma_int_text_parse(type_bits(t) as int, 0, 255);
    lemma_int_text_parse(hitsound_bits(c.hitsound) as int, 0, 255);
    lemma_type_roundtrip(t);
    lemma_hitsound_roundtrip(c.hitsound);
}

/// A spinner's text is its pieces joined by commas.
proof fn lemma_spinner_text(sp: Spinner, ps: Seq<Seq<char>>)
    requires
        ps == seq![
            sp.x@,
            sp.y@,
            sp.time@,
            int_text(type_bits(Type { circle: false, slider: false, spinner: true, mania_hold: false, combo_info: sp.combo_info }) as int),
            int_text(hitsound_bits(sp.hitsound) as int),
            sp.end_time@,
            hit_sample_text(sp.hitsample),
        ],
    ensures
        spinner_text(sp) == join(ps, ',') + seq!['\n'],
{
    reveal_strlit(",");
    reveal_strlit("\n");
    let c = seq![','];
    lemma_join_take(ps, 1, ',');
    lemma_join_take(ps, 2, ',');
    lemma_join_take(ps, 3, ',');
    lemma_join_take(ps, 4, ',');
    lemma_join_take(ps, 5, ',');
    lemma_join_take(ps, 6, ',');
    assert(ps.take(7) =~= ps);
    assert(spinner_text(sp) =~= ps[0] + c + ps[1] + c + ps[2] + c + ps[3] + c + ps[4] + c + ps[5] + c
        + ps[6] + seq!['\n']);
}

/// A written spinner reads back.
#[verifier::spinoff_prover]
proof fn lemma_spinner_roundtrip(sp: Spinner)
    requires
        hit_object_clean(HitObject::Spinner(sp)),
    ensures
        object_line_reads_back(HitObject::Spinner(sp)),
{
    reveal_strlit(",");
    reveal_strlit("\n");
    let o = HitObject::Spinner(sp);
    let t = Type {
        circle: false,
        slider: false,
        spinner: true,
        mania_hold: false,
        combo_info: sp.combo_info,
    };
    let ps = seq![
        sp.x@,
        sp.y@,
        sp.time@,
        int_text(type_bits(t) as int),
        int_text(hitsound_bits(sp.hitsound) as int),
        sp.end_time@,
        hit_sample_text(sp.hitsample),
    ];
    lemma_spinner_text(sp, ps);
    assert(object_line(o) =~= join(ps, ','));
    lemma_int_plain(type_bits(t) as int);
    lemma_int_plain(hitsound_bits(sp.hitsound) as int);
    lemma_hit_sample_piece(sp.hitsample);
    assert(free_of(sp.x@, ',') && free_of(sp.y@, ',') && free_of(sp.time@, ',') && free_of(
        sp.end_time@,
        ',',
    ));
    lemma_line_pieces(ps);
    let p = split(object_line(o), ',');
    assert(p == ps);
    assert(field(p, 3) == ps[3] && field(p, 4) == ps[4] && field(p, 5) == ps[5]);
    lemma_int_text_parse(type_bits(t) as int, 0, 255);
    lemma_int_text_parse(hitsound_bits(sp.hitsound) as int, 0, 255);
    lemma_type_roundtrip(t);
    lemma_hitsound_roundtrip(sp.hitsound);
}

/// The pieces of a slider's line.
pub open spec fn slider_pieces(sl: Slider) -> Seq<Seq<char>> {
    let t = Type {
        circle: false,
        slider: true,
        spinner: false,
        mania_hold: false,
        combo_info: sl.combo_info,
    };
    seq![
        sl.pos.x@,
        sl.pos.y@,
        sl.time@,
        int_text(type_bits(t) as int),
        int_text(hitsound_bits(sl.hitsound) as int),
        curve_text(sl.curve_type@, sl.curve_points@),
        int_text(sl.slides as int),
        sl.length_pixels@,
        edge_sounds_text(sl.edge_sounds@),
        edge_sets_text(sl.edge_sets@),
        hit_sample_text(sl.hitsample),
    ]
}

/// A slider's text is its pieces joined by commas.
proof fn lemma_slider_text(sl: Slider)
    ensures
        slider_text(sl) == join(slider_pieces(sl), ',') + seq!['\n'],
{
    reveal_strlit(",");
    reveal_strlit("\n");
    let ps = slider_pieces(sl);
    let c = seq![','];
    lemma_join_take(ps, 1, ',');
    lemma_join_take(ps, 2, ',');
    lemma_join_take(ps, 3, ',');
    lemma_join_take(ps, 4, ',');
    lemma_join_take(ps, 5, ',');
    lemma_join_take(ps, 6, ',');
    lemma_join_take(ps, 7, ',');
    lemma_join_take(ps, 8, ',');
    lemma_join_take(ps, 9, ',');
    lemma_join_take(ps, 10, ',');
    assert(ps.take(11) =~= ps);
    assert(slider_text(sl) =~= ps[0] + c + ps[1] + c + ps[2] + c + ps[3] + c + ps[4] + c + ps[5] + c
        + ps[6] + c + ps[7] + c + ps[8] + c + ps[9] + c + ps[10] + seq!['\n']);
}

/// The curve of a written slider reads back.
proof fn lemma_slider_curve(sl: Slider, p: Seq<Seq<char>>)
    requires
        p == slider_pieces(sl),
        curve_clean(sl.curve_type@, sl.curve_points@),
        forall|j: int| 0 <= j < p.len() ==> #[trigger] field(p, j) == p[j],
    ensures
        curve_pieces(p) == curve_pieces_of(sl.curve_type@, sl.curve_points@),
        curve_pieces(p).len() >= 2,
        forall|i: int| 1 <= i < curve_pieces(p).len() ==> curve_point_ok(#[trigger] curve_pieces(p)[i]),
        sl.curve_type@ == curve_pieces(p)[0],
        curve_points_match(sl.curve_points@, curve_pieces(p).skip(1)),
{
    let ct = sl.curve_type@;
    let pts = sl.curve_points@;
    assert(field(p, 5) == p[5]);
    lemma_curve_piece(ct, pts);
    let cp = curve_pieces(p);
    assert(cp == curve_pieces_of(ct, pts));
    assert(cp.skip(1) =~= pts.map_values(|pt: Point| point_text(pt)));
    assert forall|i: int| 1 <= i < cp.len() implies curve_point_ok(#[trigger] cp[i]) by {
        assert(cp[i] == point_text(pts[i - 1]));
        assert(point_clean(pts[i - 1]));
        lemma_point_piece(pts[i - 1]);
    }
    assert forall|i: int| 0 <= i < cp.skip(1).len() implies {
        let q = split(#[trigger] cp.skip(1)[i], ':');
        &&& q.len() == 2
        &&& pts[i].x@ == field(q, 0)
        &&& pts[i].y@ == field(q, 1)
    } by {
        assert(cp.skip(1)[i] == point_text(pts[i]));
        assert(point_clean(pts[i]));
        lemma_point_piece(pts[i]);
    }
}

/// The edge sounds and sets of a written slider read back.
proof fn lemma_slider_edges(sl: Slider, p: Seq<Seq<char>>)
    requires
        p == slider_pieces(sl),
        sl.edge_sounds.len() >= 1,
        sl.edge_sets.len() >= 1,
        forall|j: int| 0 <= j < p.len() ==> #[trigger] field(p, j) == p[j],
    ensures
        edge_sounds_ok(edge_sound_pieces(p)),
        edge_sounds_match(sl.edge_sounds@, edge_sound_pieces(p)),
        forall|i: int| 0 <= i < edge_set_pieces(p).len() ==> edge_set_ok(#[trigger] edge_set_pieces(p)[i]),
        edge_sets_match(sl.edge_sets@, edge_set_pieces(p)),
{
    let hs = sl.edge_sounds@;
    let es = sl.edge_sets@;
    assert(field(p, 8) == p[8]);
    assert(field(p, 9) == p[9]);
    lemma_edge_sounds_piece(hs);
    lemma_edge_sets_piece(es);
    let sp = edge_sound_pieces(p);
    assert(sp == edge_sound_pieces_of(hs));
    assert forall|i: int| 0 <= i < sp.len() implies (#[trigger] u8_value(field(sp, i))) matches Some(b)
        && hs[i] == hitsound_of(b as u8) by {
        let bits = hitsound_bits(hs[i]);
        assert(sp[i] == int_text(bits as int));
        lemma_int_plain(bits as int);
        lemma_trim_trimmed(sp[i]);
        lemma_int_text_parse(bits as int, 0, 255);
        lemma_hitsound_roundtrip(hs[i]);
    }
    let ep = edge_set_pieces(p);
    assert(ep == edge_set_pieces_of(es));
    assert forall|i: int| 0 <= i < ep.len() implies {
        let q = split(#[trigger] ep[i], ':');
        &&& edge_set_ok(ep[i])
        &&& i32_value(field(q, 0)) == Some(es[i].normal_set as int)
        &&& i32_value(field(q, 1)) == Some(es[i].addition_set as int)
    } by {
        assert(ep[i] == edge_set_text(es[i]));
        lemma_edge_set_piece(es[i]);
        let q = split(ep[i], ':');
        lemma_int_plain(es[i].normal_set as int);
        lemma_int_plain(es[i].addition_set as int);
        lemma_trim_trimmed(q[0]);
        lemma_trim_trimmed(q[1]);
        lemma_int_text_parse(es[i].normal_set as int, i32::MIN as int, i32::MAX as int);
        lemma_int_text_parse(es[i].addition_set as int, i32::MIN as int, i32::MAX as int);
    }
}

/// A written slider reads back.
#[verifier::spinoff_prover]
proof fn lemma_slider_roundtrip(sl: Slider)
    requires
        hit_object_clean(HitObject::Slider(sl)),
    ensures
        object_line_reads_back(HitObject::Slider(sl)),
{
    let o = HitObject::Slider(sl);
    let t = Type {
        circle: false,
        slider: true,
        spinner: false,
        mania_hold: false,
        combo_info: sl.combo_info,
    };
    let ps = slider_pieces(sl);
    lemma_slider_text(sl);
    assert(object_line(o) =~= join(ps, ','));
    lemma_int_plain(type_bits(t) as int);
    lemma_int_plain(hitsound_bits(sl.hitsound) as int);
    lemma_int_plain(sl.slides as int);
    lemma_hit_sample_piece(sl.hitsample);
    lemma_curve_piece(sl.curve_type@, sl.curve_points@);
    lemma_edge_sounds_piece(sl.edge_sounds@);
    lemma_edge_sets_piece(sl.edge_sets@);
    assert(free_of(sl.pos.x@, ',') && free_of(sl.pos.y@, ',') && free_of(sl.time@, ',') && free_of(
        sl.length_pixels@,
        ',',
    ));
    lemma_line_pieces(ps);
    let p = split(object_line(o), ',');
    assert(p == ps);
    lemma_slider_curve(sl, p);
    lemma_slider_edges(sl, p);
    assert(field(p, 3) == ps[3] && field(p, 4) == ps[4] && field(p, 6) == ps[6] && field(p, 7)
        == ps[7]);
    lemma_int_text_parse(type_bits(t) as int, 0, 255);
    lemma_int_text_parse(hitsound_bits(sl.hitsound) as int, 0, 255);
    lemma_int_text_parse(sl.slides as int, 0, u64::MAX as int);
    lemma_type_roundtrip(t);
    lemma_hitsound_roundtrip(sl.hitsound);
    assert(slider_parts_ok(p));
    assert(slider_parts_match(sl, p));
}

/// A written hit object reads back.
pub proof fn lemma_hit_object_roundtrip(o: HitObject)
    requires
        hit_object_clean(o),
    ensures
        object_line_reads_back(o),
{
    match o {
        HitObject::Circle(c) => lemma_circle_roundtrip(c),
        HitObject::Slider(sl) => lemma_slider_roundtrip(sl),
        HitObject::Spinner(sp) => lemma_spinner_roundtrip(sp),
    }
}

/// The lines of the objects' text are the objects' lines.
#[verifier::spinoff_prover]
#[verifier::rlimit(30)]
proof fn lemma_object_lines(os: Seq<HitObject>)
    requires
        forall|i: int| 0 <= i < os.len() ==> hit_object_clean(#[trigger] os[i]),
    ensures
        lines(hit_objects_text(os)) == os.map_values(|o: HitObject| object_line(o)),
        hit_objects_text(os).len() == 0 || hit_objects_text(os).last() == '\n',
    decreases os.len(),
{
    let lns = os.map_values(|o: HitObject| object_line(o));
    if os.len() == 0 {
        assert(lines(hit_objects_text(os)) =~= lns);
    } else {
        let init = os.drop_last();
        assert forall|i: int| 0 <= i < init.len() implies hit_object_clean(#[trigger] init[i]) by {
            assert(init[i] == os[i]);
        }
        lemma_object_lines(init);
        assert(hit_object_clean(os.last()));
        lemma_hit_object_roundtrip(os.last());
        let l = object_line(os.last());
        lemma_lines_append(hit_objects_text(init), hit_object_text(os.last()));
        lemma_lines_cons(l, seq![]);
        assert(l + seq!['\n'] + seq![] =~= hit_object_text(os.last()));
        assert(lines(Seq::<char>::empty()) =~= Seq::<Seq<char>>::empty());
        assert(strip_cr(l) == l) by {
            assert(!is_ws(l.last()));
        }
        assert(lines(hit_objects_text(os)) =~= lns);
    }
}

/// Reading the `[HitObjects]` lines that `HitObjectsSection::to_osu_text`
/// writes gives back the objects, where each is clean (`hit_object_clean`):
/// every line is accepted and reads back as its object.
pub proof fn lemma_hit_objects_roundtrip(os: Seq<HitObject>)
    requires
        forall|i: int| 0 <= i < os.len() ==> hit_object_clean(#[trigger] os[i]),
    ensures
        objects_section_ok(hit_objects_text(os)),
        hit_objects_match(os, content_lines(lines(hit_objects_text(os)))),
{
    lemma_object_lines(os);
    let lns = os.map_values(|o: HitObject| object_line(o));
    assert forall|i: int| 0 <= i < lns.len() implies is_trimmed(#[trigger] lns[i]) && lns[i].len()
        > 0 by {
        assert(hit_object_clean(os[i]));
        lemma_hit_object_roundtrip(os[i]);
    }
    lemma_content_all(lns);
    assert forall|i: int| 0 <= i < lns.len() implies hit_object_line_ok(split(#[trigger] lns[i], ','))
        && hit_object_matches(os[i], split(lns[i], ',')) by {
        assert(hit_object_clean(os[i]));
        lemma_hit_object_roundtrip(os[i]);
    }
}

} // verus!
