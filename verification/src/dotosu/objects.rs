//! The `[HitObjects]` section: circles, sliders and spinners.
use vstd::prelude::*;
use crate::text::{
    chars_of, content_lines, field, field_vec, int_field, int_text, lemma_content_prefix, lines,
    lines_vec, parse_int, push_int, push_str, split, split_vec, string_of, sub_vec, trim, trim_vec,
    views,
};

use crate::float_syntax::{float_field, float_text};

verus! {

/// A position; each coordinate is decimal text.
#[derive(Clone, Debug, PartialEq)]
pub struct Point {
    pub x: String,
    pub y: String,
}

#[derive(Clone, Copy, Debug, PartialEq, Eq, Structural)]
pub struct ComboInfo {
    pub new_combo: bool,
    pub color_skip: i8,
}

/// The type bits of a hit object.
#[derive(Clone, Copy, Debug, PartialEq, Eq, Structural)]
pub struct Type {
    pub circle: bool,
    pub slider: bool,
    pub spinner: bool,
    pub mania_hold: bool,
    pub combo_info: ComboInfo,
}

/// The type read from `bits`, before the one-kind check.
pub open spec fn type_of_bits(bits: u8) -> Type {
    Type {
        circle: bits & 1 != 0,
        slider: bits & 2 != 0,
        spinner: bits & 8 != 0,
        mania_hold: bits & 128 != 0,
        combo_info: ComboInfo { new_combo: bits & 4 != 0, color_skip: ((bits >> 4) & 7) as i8 },
    }
}

/// Exactly one of the four kinds is set.
pub open spec fn one_kind(t: Type) -> bool {
    (if t.circle { 1int } else { 0 }) + (if t.slider { 1int } else { 0 }) + (if t.spinner {
        1int
    } else {
        0
    }) + (if t.mania_hold { 1int } else { 0 }) == 1
}

pub open spec fn type_bits(t: Type) -> u8 {
    (if t.circle { 1u8 } else { 0u8 }) | (if t.slider { 2u8 } else { 0u8 }) | (
    if t.combo_info.new_combo { 4u8 } else { 0u8 }) | (if t.spinner { 8u8 } else { 0u8 }) | (((
    t.combo_info.color_skip as u8) & 7) << 4u8) | (if t.mania_hold { 128u8 } else { 0u8 })
}

impl Type {
    /// Reads type bits; `None` unless exactly one of circle, slider, spinner and
    /// mania hold is set.
    pub fn from_bits(bits: u8) -> (r: Option<Type>)
        ensures
            r is Some <==> one_kind(type_of_bits(bits)),
            r matches Some(t) ==> t == type_of_bits(bits),
    {
        let ret = Type {
            circle: bits & 1 != 0,
            slider: bits & 2 != 0,
            spinner: bits & 8 != 0,
            mania_hold: bits & 128 != 0,
            combo_info: ComboInfo { new_combo: bits & 4 != 0, color_skip: ((bits >> 4) & 7) as i8 },
        };
        let count = (if ret.circle { 1u8 } else { 0u8 }) + (if ret.slider { 1u8 } else { 0u8 }) + (
        if ret.spinner { 1u8 } else { 0u8 }) + (if ret.mania_hold { 1u8 } else { 0u8 });
        if count != 1 {
            return None;
        }
        Some(ret)
    }

    /// Writes the type bits.
    pub fn to_bits(&self) -> (r: u8)
        ensures
            r == type_bits(*self),
    {
        (if self.circle { 1u8 } else { 0u8 }) | (if self.slider { 2u8 } else { 0u8 }) | (
        if self.combo_info.new_combo { 4u8 } else { 0u8 }) | (if self.spinner { 8u8 } else { 0u8 })
            | (((self.combo_info.color_skip as u8) & 7) << 4u8) | (if self.mania_hold { 128u8 } else {
            0u8
        })
    }
}

/// The four hitsound additions.
#[derive(Clone, Copy, Debug, PartialEq, Eq, Structural)]
pub struct Hitsound {
    pub normal: bool,
    pub whistle: bool,
    pub finish: bool,
    pub clap: bool,
}

pub open spec fn hitsound_of(bits: u8) -> Hitsound {
    Hitsound { normal: bits & 1 != 0, whistle: bits & 2 != 0, finish: bits & 4 != 0, clap: bits & 8 != 0 }
}

pub open spec fn hitsound_bits(h: Hitsound) -> u8 {
    (if h.normal { 1u8 } else { 0u8 }) | (if h.whistle { 2u8 } else { 0u8 }) | (if h.finish {
        4u8
    } else {
        0u8
    }) | (if h.clap { 8u8 } else { 0u8 })
}

impl Hitsound {
    /// Bits 0 to 3 are normal, whistle, finish and clap.
    pub fn from_bits(bits: u8) -> (r: Hitsound)
        ensures
            r == hitsound_of(bits),
    {
        Hitsound { normal: bits & 1 != 0, whistle: bits & 2 != 0, finish: bits & 4 != 0, clap: bits & 8 != 0 }
    }

    /// The hitsound bits.
    pub fn to_bits(&self) -> (r: u8)
        ensures
            r == hitsound_bits(*self),
    {
        (if self.normal { 1u8 } else { 0u8 }) | (if self.whistle { 2u8 } else { 0u8 }) | (
        if self.finish { 4u8 } else { 0u8 }) | (if self.clap { 8u8 } else { 0u8 })
    }
}

/// Writing a hitsound's bits and reading them back gives the hitsound.
pub proof fn lemma_hitsound_roundtrip(h: Hitsound)
    ensures
        hitsound_of(hitsound_bits(h)) == h,
{
    let a = h.normal;
    let b = h.whistle;
    let c = h.finish;
    let d = h.clap;
    let x = hitsound_bits(h);
    assert(x == ((if a { 1u8 } else { 0u8 }) | (if b { 2u8 } else { 0u8 }) | (if c { 4u8 } else { 0u8 }) | (if d { 8u8 } else { 0u8 })));
    assert(x == ((if a { 1u8 } else { 0u8 }) | (if b { 2u8 } else { 0u8 }) | (if c { 4u8 } else { 0u8 }) | (if d { 8u8 } else { 0u8 })) ==> ((x & 1 != 0) == a && (x & 2 != 0) == b && (x & 4 != 0) == c && (x & 8 != 0) == d)) by (bit_vector);
}

/// Reading hitsound bits and writing them back keeps the four low bits.
pub proof fn lemma_hitsound_bits_of(bits: u8)
    ensures
        hitsound_bits(hitsound_of(bits)) == bits & 15,
{
    let h = hitsound_of(bits);
    assert(((if bits & 1 != 0 { 1u8 } else { 0u8 }) | (if bits & 2 != 0 { 2u8 } else { 0u8 }) | (if bits & 4 != 0 { 4u8 } else { 0u8 }) | (if bits & 8 != 0 { 8u8 } else { 0u8 })) == bits & 15) by (bit_vector);
}

/// Writing a type's bits and reading them back gives the type, where exactly
/// one kind is set and the colour skip is in `0..8`.
pub proof fn lemma_type_roundtrip(t: Type)
    requires
        one_kind(t),
        0 <= t.combo_info.color_skip < 8,
    ensures
        one_kind(type_of_bits(type_bits(t))),
        type_of_bits(type_bits(t)) == t,
{
    let c = t.circle;
    let s = t.slider;
    let n = t.combo_info.new_combo;
    let p = t.spinner;
    let m = t.mania_hold;
    let k = t.combo_info.color_skip as u8;
    let x = type_bits(t);
    assert(x == ((if c { 1u8 } else { 0u8 }) | (if s { 2u8 } else { 0u8 }) | (if n { 4u8 } else { 0u8 }) | (if p { 8u8 } else { 0u8 }) | ((k & 7) << 4u8) | (if m { 128u8 } else { 0u8 })));
    assert(k < 8 && x == ((if c { 1u8 } else { 0u8 }) | (if s { 2u8 } else { 0u8 }) | (if n { 4u8 } else { 0u8 }) | (if p { 8u8 } else { 0u8 }) | ((k & 7) << 4u8) | (if m { 128u8 } else { 0u8 })) ==> ((x & 1 != 0) == c && (x & 2 != 0) == s && (x & 4 != 0) == n && (x & 8 != 0) == p && (x & 128 != 0) == m && ((x >> 4u8) & 7) == k)) by (bit_vector);
    assert(type_of_bits(x) == t);
}

/// Reading valid type bits and writing them back gives the bits.
pub proof fn lemma_type_bits_of(bits: u8)
    requires
        one_kind(type_of_bits(bits)),
    ensures
        type_bits(type_of_bits(bits)) == bits,
{
    let t = type_of_bits(bits);
    assert(((bits >> 4u8) & 7) as i8 as u8 == (bits >> 4u8) & 7) by (bit_vector);
    let k = (bits >> 4u8) & 7;
    assert(((if bits & 1 != 0 { 1u8 } else { 0u8 }) | (if bits & 2 != 0 { 2u8 } else { 0u8 }) | (if bits & 4 != 0 { 4u8 } else { 0u8 }) | (if bits & 8 != 0 { 8u8 } else { 0u8 }) | ((((bits >> 4u8) & 7) & 7) << 4u8) | (if bits & 128 != 0 { 128u8 } else { 0u8 })) == bits) by (bit_vector);
}


#[derive(Clone, Debug, PartialEq)]
pub struct HitSample {
    pub normal_set: i32,
    pub addition_set: i32,
    pub index: i32,
    pub volume: i32,
    pub filename: String,
}

pub open spec fn i32_value(s: Seq<char>) -> Option<int> {
    parse_int(s, i32::MIN as int, i32::MAX as int)
}

pub open spec fn u8_value(s: Seq<char>) -> Option<int> {
    parse_int(s, 0, 255)
}

pub open spec fn u64_value(s: Seq<char>) -> Option<int> {
    parse_int(s, 0, u64::MAX as int)
}

/// A hit sample text `normal:addition:index:volume[:filename]` is valid.
pub open spec fn hit_sample_ok(text: Seq<char>) -> bool {
    let p = split(text, ':');
    &&& p.len() >= 4
    &&& i32_value(field(p, 0)) is Some
    &&& i32_value(field(p, 1)) is Some
    &&& i32_value(field(p, 2)) is Some
    &&& i32_value(field(p, 3)) is Some
}

/// `hs` holds what the hit sample text says.
pub open spec fn hit_sample_matches(hs: HitSample, text: Seq<char>) -> bool {
    let p = split(text, ':');
    &&& hit_sample_ok(text)
    &&& i32_value(field(p, 0)) == Some(hs.normal_set as int)
    &&& i32_value(field(p, 1)) == Some(hs.addition_set as int)
    &&& i32_value(field(p, 2)) == Some(hs.index as int)
    &&& i32_value(field(p, 3)) == Some(hs.volume as int)
    &&& hs.filename@ == (if p.len() >= 5 { field(p, 4) } else { seq![] })
}

/// The hit sample used where a line gives none.
pub open spec fn is_default_hit_sample(hs: HitSample) -> bool {
    hs.normal_set == 0 && hs.addition_set == 0 && hs.index == 0 && hs.volume == 0
        && hs.filename@.len() == 0
}

fn default_hit_sample() -> (r: HitSample)
    ensures
        is_default_hit_sample(r),
{
    let e: Vec<char> = Vec::new();
    HitSample { normal_set: 0, addition_set: 0, index: 0, volume: 0, filename: string_of(&e) }
}

fn parse_hit_sample_chars(text: &Vec<char>) -> (r: Option<HitSample>)
    ensures
        r is Some <==> hit_sample_ok(text@),
        r matches Some(hs) ==> hit_sample_matches(hs, text@),
{
    let p = split_vec(text, ':');
    if p.len() < 4 {
        return None;
    }
    let normal_set = match int_field(&p, 0, i32::MIN as i128, i32::MAX as i128) {
        Some(v) => v as i32,
        None => return None,
    };
    let addition_set = match int_field(&p, 1, i32::MIN as i128, i32::MAX as i128) {
        Some(v) => v as i32,
        None => return None,
    };
    let index = match int_field(&p, 2, i32::MIN as i128, i32::MAX as i128) {
        Some(v) => v as i32,
        None => return None,
    };
    let volume = match int_field(&p, 3, i32::MIN as i128, i32::MAX as i128) {
        Some(v) => v as i32,
        None => return None,
    };
    let filename = if p.len() >= 5 {
        string_of(&field_vec(&p, 4))
    } else {
        let e: Vec<char> = Vec::new();
        assert(e@ =~= Seq::<char>::empty());
        string_of(&e)
    };
    Some(HitSample { normal_set, addition_set, index, volume, filename })
}

/// Reads a hit sample `normal:addition:index:volume[:filename]`; each part is
/// trimmed. `None` where there are fewer than four parts or one of the first
/// four is not an `i32`.
pub fn parse_hit_sample(text: &str) -> (r: Option<HitSample>)
    ensures
        r is Some <==> hit_sample_ok(text@),
        r matches Some(hs) ==> hit_sample_matches(hs, text@),
{
    parse_hit_sample_chars(&chars_of(text))
}

pub open spec fn hit_sample_text(hs: HitSample) -> Seq<char> {
    int_text(hs.normal_set as int) + ":"@ + int_text(hs.addition_set as int) + ":"@ + int_text(
        hs.index as int,
    ) + ":"@ + int_text(hs.volume as int) + ":"@ + hs.filename@
}

impl HitSample {
    fn push_text(&self, out: &mut Vec<char>)
        ensures
            final(out)@ == old(out)@ + hit_sample_text(*self),
    {
        push_int(out, self.normal_set as i128);
        push_str(out, ":");
        push_int(out, self.addition_set as i128);
        push_str(out, ":");
        push_int(out, self.index as i128);
        push_str(out, ":");
        push_int(out, self.volume as i128);
        push_str(out, ":");
        push_str(out, self.filename.as_str());
    }

    /// Writes `normal:addition:index:volume:filename`.
    pub fn to_osu_text(&self) -> (r: String)
        ensures
            r@ == hit_sample_text(*self),
    {
        let mut out: Vec<char> = Vec::new();
        self.push_text(&mut out);
        assert(out@ =~= hit_sample_text(*self));
        string_of(&out)
    }
}


#[derive(Clone, Debug, PartialEq)]
pub struct EdgeSet {
    pub normal_set: i32,
    pub addition_set: i32,
}

#[derive(Clone, Debug, PartialEq)]
pub struct Circle {
    pub pos: Point,
    /// Decimal text.
    pub time: String,
    pub combo_info: ComboInfo,
    pub hitsound: Hitsound,
    pub hitsample: HitSample,
}

#[derive(Clone, Debug, PartialEq)]
pub struct Slider {
    pub pos: Point,
    /// Decimal text.
    pub time: String,
    pub curve_type: String,
    pub curve_points: Vec<Point>,
    pub slides: u64,
    /// Decimal text.
    pub length_pixels: String,
    pub edge_sounds: Vec<Hitsound>,
    pub edge_sets: Vec<EdgeSet>,
    pub combo_info: ComboInfo,
    pub hitsound: Hitsound,
    pub hitsample: HitSample,
}

#[derive(Clone, Debug, PartialEq)]
pub struct Spinner {
    /// Decimal text.
    pub x: String,
    /// Decimal text.
    pub y: String,
    /// Decimal text.
    pub time: String,
    /// Decimal text.
    pub end_time: String,
    pub combo_info: ComboInfo,
    pub hitsound: Hitsound,
    pub hitsample: HitSample,
}

#[derive(Clone, Debug, PartialEq)]
pub enum HitObject {
    Circle(Circle),
    Slider(Slider),
    Spinner(Spinner),
}

#[derive(Clone, Debug, PartialEq)]
pub struct HitObjectsSection {
    pub objects: Vec<HitObject>,
}

/// The hit sample of a line at part `i`, or the default where the line has
/// fewer parts: valid.
pub open spec fn hit_sample_at_ok(p: Seq<Seq<char>>, i: int) -> bool {
    p.len() > i ==> hit_sample_ok(p[i])
}

pub open spec fn hit_sample_at_matches(hs: HitSample, p: Seq<Seq<char>>, i: int) -> bool {
    if p.len() > i {
        hit_sample_matches(hs, p[i])
    } else {
        is_default_hit_sample(hs)
    }
}

/// A curve point `x:y`, two numbers.
pub open spec fn curve_point_ok(piece: Seq<char>) -> bool {
    let q = split(piece, ':');
    q.len() == 2 && float_text(field(q, 0)) && float_text(field(q, 1))
}

pub open spec fn curve_points_match(pts: Seq<Point>, pieces: Seq<Seq<char>>) -> bool {
    &&& pts.len() == pieces.len()
    &&& forall|i: int|
        0 <= i < pieces.len() ==> {
            let q = split(#[trigger] pieces[i], ':');
            &&& q.len() == 2
            &&& pts[i].x@ == field(q, 0)
            &&& pts[i].y@ == field(q, 1)
        }
}

/// The edge sounds of a slider: `|`-separated `u8` bits.
pub open spec fn edge_sounds_ok(pieces: Seq<Seq<char>>) -> bool {
    forall|i: int| 0 <= i < pieces.len() ==> u8_value(#[trigger] field(pieces, i)) is Some
}

pub open spec fn edge_sounds_match(hs: Seq<Hitsound>, pieces: Seq<Seq<char>>) -> bool {
    &&& hs.len() == pieces.len()
    &&& forall|i: int|
        0 <= i < pieces.len() ==> ((#[trigger] u8_value(field(pieces, i))) matches Some(b) && hs[i]
            == hitsound_of(b as u8))
}

/// The edge sets of a slider: `|`-separated `normal:addition` pairs of `i32`.
pub open spec fn edge_set_ok(piece: Seq<char>) -> bool {
    let q = split(piece, ':');
    q.len() == 2 && i32_value(field(q, 0)) is Some && i32_value(field(q, 1)) is Some
}

pub open spec fn edge_sets_match(es: Seq<EdgeSet>, pieces: Seq<Seq<char>>) -> bool {
    &&& es.len() == pieces.len()
    &&& forall|i: int|
        0 <= i < pieces.len() ==> {
            let q = split(#[trigger] pieces[i], ':');
            &&& edge_set_ok(pieces[i])
            &&& i32_value(field(q, 0)) == Some(es[i].normal_set as int)
            &&& i32_value(field(q, 1)) == Some(es[i].addition_set as int)
        }
}

/// The pieces of a slider's curve: the type, then the points.
pub open spec fn curve_pieces(p: Seq<Seq<char>>) -> Seq<Seq<char>> {
    split(field(p, 5), '|')
}

pub open spec fn edge_sound_pieces(p: Seq<Seq<char>>) -> Seq<Seq<char>> {
    if p.len() >= 9 {
        split(field(p, 8), '|')
    } else {
        seq![]
    }
}

pub open spec fn edge_set_pieces(p: Seq<Seq<char>>) -> Seq<Seq<char>> {
    if p.len() >= 10 {
        split(field(p, 9), '|')
    } else {
        seq![]
    }
}

/// The type a hit object line gives.
pub open spec fn line_type(p: Seq<Seq<char>>) -> Type {
    type_of_bits(u8_value(field(p, 3)).unwrap() as u8)
}

/// A hit object line, split at its commas, is valid.
pub open spec fn hit_object_line_ok(p: Seq<Seq<char>>) -> bool {
    &&& p.len() >= 5
    &&& float_text(field(p, 0)) && float_text(field(p, 1)) && float_text(field(p, 2))
    &&& u8_value(field(p, 3)) is Some
    &&& one_kind(line_type(p))
    &&& u8_value(field(p, 4)) is Some
    &&& {
        let t = line_type(p);
        if t.circle {
            hit_sample_at_ok(p, 5)
        } else if t.slider {
            slider_parts_ok(p)
        } else if t.spinner {
            p.len() >= 6 && float_text(field(p, 5)) && hit_sample_at_ok(p, 6)
        } else {
            false
        }
    }
}

/// `o` holds what the hit object line `p` says.
pub open spec fn hit_object_matches(o: HitObject, p: Seq<Seq<char>>) -> bool {
    let t = line_type(p);
    let hitsound = hitsound_of(u8_value(field(p, 4)).unwrap() as u8);
    &&& hit_object_line_ok(p)
    &&& match o {
        HitObject::Circle(c) => {
            &&& t.circle
            &&& c.pos.x@ == field(p, 0)
            &&& c.pos.y@ == field(p, 1)
            &&& c.time@ == field(p, 2)
            &&& c.combo_info == t.combo_info
            &&& c.hitsound == hitsound
            &&& hit_sample_at_matches(c.hitsample, p, 5)
        },
        HitObject::Slider(sl) => {
            &&& t.slider
            &&& sl.pos.x@ == field(p, 0)
            &&& sl.pos.y@ == field(p, 1)
            &&& sl.time@ == field(p, 2)
            &&& slider_parts_match(sl, p)
            &&& sl.combo_info == t.combo_info
            &&& sl.hitsound == hitsound
        },
        HitObject::Spinner(sp) => {
            &&& t.spinner
            &&& !t.circle
            &&& !t.slider
            &&& sp.x@ == field(p, 0)
            &&& sp.y@ == field(p, 1)
            &&& sp.time@ == field(p, 2)
            &&& sp.end_time@ == field(p, 5)
            &&& sp.combo_info == t.combo_info
            &&& sp.hitsound == hitsound
            &&& hit_sample_at_matches(sp.hitsample, p, 6)
        },
    }
}

fn hit_sample_at(p: &Vec<Vec<char>>, i: usize) -> (r: Option<HitSample>)
    ensures
        r is Some <==> hit_sample_at_ok(views(p@), i as int),
        r matches Some(hs) ==> hit_sample_at_matches(hs, views(p@), i as int),
{
    if p.len() > i {
        parse_hit_sample_chars(&p[i])
    } else {
        Some(default_hit_sample())
    }
}

fn parse_curve_points(pieces: &Vec<Vec<char>>) -> (r: Option<Vec<Point>>)
    requires
        pieces.len() >= 1,
    ensures
        r is Some <==> forall|i: int|
            1 <= i < pieces.len() ==> curve_point_ok(#[trigger] views(pieces@)[i]),
        r matches Some(pts) ==> curve_points_match(pts@, views(pieces@).skip(1)),
{
    let ghost rest = views(pieces@).skip(1);
    let mut pts: Vec<Point> = Vec::new();
    let mut i: usize = 1;
    while i < pieces.len()
        invariant
            1 <= i <= pieces.len(),
            rest == views(pieces@).skip(1),
            pts.len() == i - 1,
            forall|k: int| 1 <= k < i ==> curve_point_ok(#[trigger] views(pieces@)[k]),
            forall|k: int|
                0 <= k < i - 1 ==> {
                    let q = split(#[trigger] rest[k], ':');
                    &&& q.len() == 2
                    &&& pts@[k].x@ == field(q, 0)
                    &&& pts@[k].y@ == field(q, 1)
                },
        decreases pieces.len() - i,
    {
        let q = split_vec(&pieces[i], ':');
        if q.len() != 2 || !float_field(&q, 0) || !float_field(&q, 1) {
            assert(!curve_point_ok(views(pieces@)[i as int]));
            return None;
        }
        let x = string_of(&field_vec(&q, 0));
        let y = string_of(&field_vec(&q, 1));
        assert(rest[i - 1] == views(pieces@)[i as int]);
        pts.push(Point { x, y });
        i += 1;
    }
    Some(pts)
}

fn parse_edge_sounds(pieces: &Vec<Vec<char>>) -> (r: Option<Vec<Hitsound>>)
    ensures
        r is Some <==> edge_sounds_ok(views(pieces@)),
        r matches Some(hs) ==> edge_sounds_match(hs@, views(pieces@)),
{
    let mut hs: Vec<Hitsound> = Vec::new();
    let mut i: usize = 0;
    while i < pieces.len()
        invariant
            i <= pieces.len(),
            hs.len() == i,
            forall|k: int|
                0 <= k < i ==> ((#[trigger] u8_value(field(views(pieces@), k))) matches Some(b)
                    && hs@[k] == hitsound_of(b as u8)),
        decreases pieces.len() - i,
    {
        match int_field(pieces, i, 0, 255) {
            Some(b) => {
                hs.push(Hitsound::from_bits(b as u8));
            },
            None => {
                assert(u8_value(field(views(pieces@), i as int)) is None);
                return None;
            },
        }
        i += 1;
    }
    Some(hs)
}

fn parse_edge_sets(pieces: &Vec<Vec<char>>) -> (r: Option<Vec<EdgeSet>>)
    ensures
        r is Some <==> forall|i: int|
            0 <= i < pieces.len() ==> edge_set_ok(#[trigger] views(pieces@)[i]),
        r matches Some(es) ==> edge_sets_match(es@, views(pieces@)),
{
    let mut es: Vec<EdgeSet> = Vec::new();
    let mut i: usize = 0;
    while i < pieces.len()
        invariant
            i <= pieces.len(),
            es.len() == i,
            forall|k: int|
                0 <= k < i ==> {
                    let q = split(#[trigger] views(pieces@)[k], ':');
                    &&& edge_set_ok(views(pieces@)[k])
                    &&& i32_value(field(q, 0)) == Some(es@[k].normal_set as int)
                    &&& i32_value(field(q, 1)) == Some(es@[k].addition_set as int)
                },
        decreases pieces.len() - i,
    {
        let q = split_vec(&pieces[i], ':');
        if q.len() != 2 {
            assert(!edge_set_ok(views(pieces@)[i as int]));
            return None;
        }
        let normal_set = match int_field(&q, 0, i32::MIN as i128, i32::MAX as i128) {
            Some(v) => v as i32,
            None => {
                assert(!edge_set_ok(views(pieces@)[i as int]));
                return None;
            },
        };
        let addition_set = match int_field(&q, 1, i32::MIN as i128, i32::MAX as i128) {
            Some(v) => v as i32,
            None => {
                assert(!edge_set_ok(views(pieces@)[i as int]));
                return None;
            },
        };
        es.push(EdgeSet { normal_set, addition_set });
        i += 1;
    }
    Some(es)
}

fn pieces_of_field(p: &Vec<Vec<char>>, i: usize) -> (r: Vec<Vec<char>>)
    requires
        i < p.len(),
    ensures
        views(r@) == split(field(views(p@), i as int), '|'),
{
    let f = field_vec(p, i);
    split_vec(&f, '|')
}

/// The slider-specific parts of a slider line are valid.
pub open spec fn slider_parts_ok(p: Seq<Seq<char>>) -> bool {
    &&& p.len() >= 8
    &&& curve_pieces(p).len() >= 2
    &&& forall|i: int|
        1 <= i < curve_pieces(p).len() ==> curve_point_ok(#[trigger] curve_pieces(p)[i])
    &&& u64_value(field(p, 6)) is Some
    &&& float_text(field(p, 7))
    &&& edge_sounds_ok(edge_sound_pieces(p))
    &&& forall|i: int|
        0 <= i < edge_set_pieces(p).len() ==> edge_set_ok(#[trigger] edge_set_pieces(p)[i])
    &&& hit_sample_at_ok(p, 10)
}

/// `sl` holds what the slider-specific parts of `p` say.
pub open spec fn slider_parts_match(sl: Slider, p: Seq<Seq<char>>) -> bool {
    &&& sl.curve_type@ == curve_pieces(p)[0]
    &&& curve_points_match(sl.curve_points@, curve_pieces(p).skip(1))
    &&& u64_value(field(p, 6)) == Some(sl.slides as int)
    &&& sl.length_pixels@ == field(p, 7)
    &&& edge_sounds_match(sl.edge_sounds@, edge_sound_pieces(p))
    &&& edge_sets_match(sl.edge_sets@, edge_set_pieces(p))
    &&& hit_sample_at_matches(sl.hitsample, p, 10)
}

fn parse_slider(parts: &Vec<Vec<char>>, pos: Point, time: String, obj_type: Type, hitsound: Hitsound) -> (r: Option<Slider>)
    requires
        parts.len() >= 5,
    ensures
        r is Some <==> slider_parts_ok(views(parts@)),
        r matches Some(sl) ==> slider_parts_match(sl, views(parts@)) && sl.pos == pos && sl.time
            == time && sl.combo_info == obj_type.combo_info && sl.hitsound == hitsound,
{
    let ghost p = views(parts@);
    if parts.len() < 8 {
        return None;
    }
    let curve = pieces_of_field(parts, 5);
    assert(views(curve@) == curve_pieces(p));
    if curve.len() < 2 {
        return None;
    }
    let curve_type = string_of(&sub_vec(&curve[0], 0, curve[0].len()));
    let curve_points = match parse_curve_points(&curve) {
        Some(pts) => pts,
        None => return None,
    };
    let slides = match int_field(parts, 6, 0, u64::MAX as i128) {
        Some(v) => v as u64,
        None => return None,
    };
    if !float_field(parts, 7) {
        return None;
    }
    let length_pixels = string_of(&field_vec(parts, 7));
    let edge_sounds = if parts.len() >= 9 {
        let ep = pieces_of_field(parts, 8);
        assert(views(ep@) == edge_sound_pieces(p));
        match parse_edge_sounds(&ep) {
            Some(hs) => hs,
            None => return None,
        }
    } else {
        let e: Vec<Hitsound> = Vec::new();
        assert(edge_sound_pieces(p) =~= Seq::<Seq<char>>::empty());
        e
    };
    let edge_sets = if parts.len() >= 10 {
        let sp = pieces_of_field(parts, 9);
        assert(views(sp@) == edge_set_pieces(p));
        match parse_edge_sets(&sp) {
            Some(es) => es,
            None => return None,
        }
    } else {
        let e: Vec<EdgeSet> = Vec::new();
        assert(edge_set_pieces(p) =~= Seq::<Seq<char>>::empty());
        e
    };
    let hitsample = match hit_sample_at(parts, 10) {
        Some(hs) => hs,
        None => return None,
    };
    assert(curve_type@ == curve_pieces(p)[0]);
    assert(curve_points_match(curve_points@, curve_pieces(p).skip(1)));
    assert(edge_sounds_match(edge_sounds@, edge_sound_pieces(p)));
    assert(edge_sets_match(edge_sets@, edge_set_pieces(p)));
    Some(
        Slider {
            pos,
            time,
            curve_type,
            curve_points,
            slides,
            length_pixels,
            edge_sounds,
            edge_sets,
            combo_info: obj_type.combo_info,
            hitsound,
            hitsample,
        },
    )
}

/// Reads one hit object line (already trimmed, not empty).
pub fn parse_hit_object_line(line: &Vec<char>) -> (r: Option<HitObject>)
    ensures
        r is Some <==> hit_object_line_ok(split(line@, ',')),
        r matches Some(o) ==> hit_object_matches(o, split(line@, ',')),
{
    let parts = split_vec(line, ',');
    let ghost p = views(parts@);
    if parts.len() < 5 || !float_field(&parts, 0) || !float_field(&parts, 1) || !float_field(
        &parts,
        2,
    ) {
        return None;
    }
    let x = string_of(&field_vec(&parts, 0));
    let y = string_of(&field_vec(&parts, 1));
    let time = string_of(&field_vec(&parts, 2));
    let obj_type = match int_field(&parts, 3, 0, 255) {
        Some(b) => match Type::from_bits(b as u8) {
            Some(t) => t,
            None => return None,
        },
        None => return None,
    };
    let hitsound = match int_field(&parts, 4, 0, 255) {
        Some(b) => Hitsound::from_bits(b as u8),
        None => return None,
    };
    if obj_type.circle {
        let hitsample = match hit_sample_at(&parts, 5) {
            Some(hs) => hs,
            None => return None,
        };
        Some(
            HitObject::Circle(
                Circle {
                    pos: Point { x, y },
                    time,
                    combo_info: obj_type.combo_info,
                    hitsound,
                    hitsample,
                },
            ),
        )
    } else if obj_type.slider {
        match parse_slider(&parts, Point { x, y }, time, obj_type, hitsound) {
            Some(sl) => Some(HitObject::Slider(sl)),
            None => None,
        }
    } else if obj_type.spinner {
        if parts.len() < 6 || !float_field(&parts, 5) {
            return None;
        }
        let end_time = string_of(&field_vec(&parts, 5));
        let hitsample = match hit_sample_at(&parts, 6) {
            Some(hs) => hs,
            None => return None,
        };
        Some(
            HitObject::Spinner(
                Spinner {
                    x,
                    y,
                    time,
                    end_time,
                    combo_info: obj_type.combo_info,
                    hitsound,
                    hitsample,
                },
            ),
        )
    } else {
        None
    }
}

/// Every content line of the section is a valid hit object line.
pub open spec fn objects_section_ok(section: Seq<char>) -> bool {
    let content = content_lines(lines(section));
    forall|i: int| 0 <= i < content.len() ==> hit_object_line_ok(split(#[trigger] content[i], ','))
}

/// `objects` holds one hit object for each content line, in order.
pub open spec fn hit_objects_match(objects: Seq<HitObject>, content: Seq<Seq<char>>) -> bool {
    &&& objects.len() == content.len()
    &&& forall|i: int|
        0 <= i < content.len() ==> hit_object_matches(#[trigger] objects[i], split(content[i], ','))
}

/// Reads the `[HitObjects]` section: one object per non-empty line; `None`
/// where a line is not a valid circle, slider or spinner.
pub fn parse_objects_section(section_text: &str) -> (r: Option<HitObjectsSection>)
    ensures
        r is Some <==> objects_section_ok(section_text@),
        r matches Some(hs) ==> hit_objects_match(hs.objects@, content_lines(lines(section_text@))),
{
    let text = chars_of(section_text);
    let ls = lines_vec(&text);
    let ghost all = views(ls@);
    let mut objects: Vec<HitObject> = Vec::new();
    let mut i: usize = 0;
    while i < ls.len()
        invariant
            i <= ls.len(),
            all == views(ls@),
            all == lines(section_text@),
            hit_objects_match(objects@, content_lines(all.take(i as int))),
        decreases ls.len() - i,
    {
        assert(all.take(i + 1).drop_last() =~= all.take(i as int));
        assert(all.take(i + 1).last() == ls@[i as int]@);
        let line = trim_vec(&ls[i]);
        if line.len() > 0 {
            match parse_hit_object_line(&line) {
                Some(o) => {
                    objects.push(o);
                },
                None => {
                    proof {
                        lemma_content_prefix(all, i + 1);
                        let c = content_lines(all.take(i + 1));
                        assert(c[c.len() - 1] == line@);
                    }
                    return None;
                },
            }
        }
        i += 1;
        assert(hit_objects_match(objects@, content_lines(all.take(i as int))));
    }
    assert(all.take(ls.len() as int) =~= all);
    proof {
        let content = content_lines(all);
        assert forall|k: int| 0 <= k < content.len() implies hit_object_line_ok(
            split(#[trigger] content[k], ','),
        ) by {
            assert(hit_object_matches(objects@[k], split(content[k], ',')));
        }
    }
    Some(HitObjectsSection { objects })
}


/// The curve type followed by `|x:y` for each point.
pub open spec fn curve_text(curve_type: Seq<char>, pts: Seq<Point>) -> Seq<char>
    decreases pts.len(),
{
    if pts.len() == 0 {
        curve_type
    } else {
        curve_text(curve_type, pts.drop_last()) + "|"@ + pts.last().x@ + ":"@ + pts.last().y@
    }
}

/// The edge sounds' bits, `|`-separated.
pub open spec fn edge_sounds_text(hs: Seq<Hitsound>) -> Seq<char>
    decreases hs.len(),
{
    if hs.len() == 0 {
        seq![]
    } else if hs.len() == 1 {
        int_text(hitsound_bits(hs[0]) as int)
    } else {
        edge_sounds_text(hs.drop_last()) + "|"@ + int_text(hitsound_bits(hs.last()) as int)
    }
}

pub open spec fn edge_set_text(e: EdgeSet) -> Seq<char> {
    int_text(e.normal_set as int) + ":"@ + int_text(e.addition_set as int)
}

/// The edge sets as `normal:addition`, `|`-separated.
pub open spec fn edge_sets_text(es: Seq<EdgeSet>) -> Seq<char>
    decreases es.len(),
{
    if es.len() == 0 {
        seq![]
    } else if es.len() == 1 {
        edge_set_text(es[0])
    } else {
        edge_sets_text(es.drop_last()) + "|"@ + edge_set_text(es.last())
    }
}

pub open spec fn circle_text(c: Circle) -> Seq<char> {
    let t = Type { circle: true, slider: false, spinner: false, mania_hold: false, combo_info: c.combo_info };
    c.pos.x@ + ","@ + c.pos.y@ + ","@ + c.time@ + ","@ + int_text(type_bits(t) as int) + ","@
        + int_text(hitsound_bits(c.hitsound) as int) + ","@ + hit_sample_text(c.hitsample) + "\n"@
}

pub open spec fn slider_text(sl: Slider) -> Seq<char> {
    let t = Type { circle: false, slider: true, spinner: false, mania_hold: false, combo_info: sl.combo_info };
    sl.pos.x@ + ","@ + sl.pos.y@ + ","@ + sl.time@ + ","@ + int_text(type_bits(t) as int) + ","@
        + int_text(hitsound_bits(sl.hitsound) as int) + ","@ + curve_text(
        sl.curve_type@,
        sl.curve_points@,
    ) + ","@ + int_text(sl.slides as int) + ","@ + sl.length_pixels@ + ","@ + edge_sounds_text(
        sl.edge_sounds@,
    ) + ","@ + edge_sets_text(sl.edge_sets@) + ","@ + hit_sample_text(sl.hitsample) + "\n"@
}

pub open spec fn spinner_text(sp: Spinner) -> Seq<char> {
    let t = Type { circle: false, slider: false, spinner: true, mania_hold: false, combo_info: sp.combo_info };
    sp.x@ + ","@ + sp.y@ + ","@ + sp.time@ + ","@ + int_text(type_bits(t) as int) + ","@
        + int_text(hitsound_bits(sp.hitsound) as int) + ","@ + sp.end_time@ + ","@
        + hit_sample_text(sp.hitsample) + "\n"@
}

/// A hit object's line.
pub open spec fn hit_object_text(o: HitObject) -> Seq<char> {
    match o {
        HitObject::Circle(c) => circle_text(c),
        HitObject::Slider(sl) => slider_text(sl),
        HitObject::Spinner(sp) => spinner_text(sp),
    }
}

/// The lines of all objects, in order.
pub open spec fn hit_objects_text(os: Seq<HitObject>) -> Seq<char>
    decreases os.len(),
{
    if os.len() == 0 {
        seq![]
    } else {
        hit_objects_text(os.drop_last()) + hit_object_text(os.last())
    }
}

fn push_curve(out: &mut Vec<char>, curve_type: &String, pts: &Vec<Point>)
    ensures
        final(out)@ == old(out)@ + curve_text(curve_type@, pts@),
{
    push_str(out, curve_type.as_str());
    let mut i: usize = 0;
    while i < pts.len()
        invariant
            i <= pts.len(),
            out@ == old(out)@ + curve_text(curve_type@, pts@.take(i as int)),
        decreases pts.len() - i,
    {
        assert(pts@.take(i + 1).drop_last() =~= pts@.take(i as int));
        push_str(out, "|");
        push_str(out, pts[i].x.as_str());
        push_str(out, ":");
        push_str(out, pts[i].y.as_str());
        i += 1;
        assert(out@ =~= old(out)@ + curve_text(curve_type@, pts@.take(i as int)));
    }
    assert(pts@.take(i as int) =~= pts@);
}

fn push_edge_sounds(out: &mut Vec<char>, hs: &Vec<Hitsound>)
    ensures
        final(out)@ == old(out)@ + edge_sounds_text(hs@),
{
    let mut i: usize = 0;
    while i < hs.len()
        invariant
            i <= hs.len(),
            out@ == old(out)@ + edge_sounds_text(hs@.take(i as int)),
        decreases hs.len() - i,
    {
        assert(hs@.take(i + 1).drop_last() =~= hs@.take(i as int));
        if i > 0 {
            push_str(out, "|");
        }
        push_int(out, hs[i].to_bits() as i128);
        i += 1;
        assert(out@ =~= old(out)@ + edge_sounds_text(hs@.take(i as int)));
    }
    assert(hs@.take(i as int) =~= hs@);
}

fn push_edge_sets(out: &mut Vec<char>, es: &Vec<EdgeSet>)
    ensures
        final(out)@ == old(out)@ + edge_sets_text(es@),
{
    let mut i: usize = 0;
    while i < es.len()
        invariant
            i <= es.len(),
            out@ == old(out)@ + edge_sets_text(es@.take(i as int)),
        decreases es.len() - i,
    {
        assert(es@.take(i + 1).drop_last() =~= es@.take(i as int));
        if i > 0 {
            push_str(out, "|");
        }
        push_int(out, es[i].normal_set as i128);
        push_str(out, ":");
        push_int(out, es[i].addition_set as i128);
        i += 1;
        assert(out@ =~= old(out)@ + edge_sets_text(es@.take(i as int)));
    }
    assert(es@.take(i as int) =~= es@);
}

impl Circle {
    fn push_text(&self, out: &mut Vec<char>)
        ensures
            final(out)@ == old(out)@ + circle_text(*self),
    {
        let t = Type {
            circle: true,
            slider: false,
            spinner: false,
            mania_hold: false,
            combo_info: self.combo_info,
        };
        push_str(out, self.pos.x.as_str());
        push_str(out, ",");
        push_str(out, self.pos.y.as_str());
        push_str(out, ",");
        push_str(out, self.time.as_str());
        push_str(out, ",");
        push_int(out, t.to_bits() as i128);
        push_str(out, ",");
        push_int(out, self.hitsound.to_bits() as i128);
        push_str(out, ",");
        self.hitsample.push_text(out);
        push_str(out, "\n");
        assert(final(out)@ =~= old(out)@ + circle_text(*self));
    }
}

impl Slider {
    #[verifier::spinoff_prover]
    #[verifier::rlimit(60)]
    fn push_text(&self, out: &mut Vec<char>)
        ensures
            final(out)@ == old(out)@ + slider_text(*self),
    {
        let t = Type {
            circle: false,
            slider: true,
            spinner: false,
            mania_hold: false,
            combo_info: self.combo_info,
        };
        push_str(out, self.pos.x.as_str());
        push_str(out, ",");
        push_str(out, self.pos.y.as_str());
        push_str(out, ",");
        push_str(out, self.time.as_str());
        push_str(out, ",");
        push_int(out, t.to_bits() as i128);
        push_str(out, ",");
        push_int(out, self.hitsound.to_bits() as i128);
        push_str(out, ",");
        push_curve(out, &self.curve_type, &self.curve_points);
        push_str(out, ",");
        push_int(out, self.slides as i128);
        push_str(out, ",");
        push_str(out, self.length_pixels.as_str());
        push_str(out, ",");
        push_edge_sounds(out, &self.edge_sounds);
        push_str(out, ",");
        push_edge_sets(out, &self.edge_sets);
        push_str(out, ",");
        self.hitsample.push_text(out);
        push_str(out, "\n");
        assert(final(out)@ =~= old(out)@ + slider_text(*self));
    }
}

impl Spinner {
    fn push_text(&self, out: &mut Vec<char>)
        ensures
            final(out)@ == old(out)@ + spinner_text(*self),
    {
        let t = Type {
            circle: false,
            slider: false,
            spinner: true,
            mania_hold: false,
            combo_info: self.combo_info,
        };
        push_str(out, self.x.as_str());
        push_str(out, ",");
        push_str(out, self.y.as_str());
        push_str(out, ",");
        push_str(out, self.time.as_str());
        push_str(out, ",");
        push_int(out, t.to_bits() as i128);
        push_str(out, ",");
        push_int(out, self.hitsound.to_bits() as i128);
        push_str(out, ",");
        push_str(out, self.end_time.as_str());
        push_str(out, ",");
        self.hitsample.push_text(out);
        push_str(out, "\n");
        assert(final(out)@ =~= old(out)@ + spinner_text(*self));
    }
}

impl HitObject {
    fn push_text(&self, out: &mut Vec<char>)
        ensures
            final(out)@ == old(out)@ + hit_object_text(*self),
    {
        match self {
            HitObject::Circle(c) => c.push_text(out),
            HitObject::Slider(sl) => sl.push_text(out),
            HitObject::Spinner(sp) => sp.push_text(out),
        }
    }

    /// Writes the object's line.
    pub fn to_osu_text(&self) -> (r: String)
        ensures
            r@ == hit_object_text(*self),
    {
        let mut out: Vec<char> = Vec::new();
        self.push_text(&mut out);
        assert(out@ =~= hit_object_text(*self));
        string_of(&out)
    }
}

impl HitObjectsSection {
    /// Writes the lines of all objects.
    pub fn to_osu_text(&self) -> (r: String)
        ensures
            r@ == hit_objects_text(self.objects@),
    {
        let mut out: Vec<char> = Vec::new();
        let mut i: usize = 0;
        while i < self.objects.len()
            invariant
                i <= self.objects.len(),
                out@ == hit_objects_text(self.objects@.take(i as int)),
            decreases self.objects.len() - i,
        {
            assert(self.objects@.take(i + 1).drop_last() =~= self.objects@.take(i as int));
            self.objects[i].push_text(&mut out);
            i += 1;
        }
        assert(self.objects@.take(i as int) =~= self.objects@);
        string_of(&out)
    }
}

/// The position of a hit object, x then y.
pub open spec fn object_position(o: HitObject) -> (Seq<char>, Seq<char>) {
    match o {
        HitObject::Circle(c) => (c.pos.x@, c.pos.y@),
        HitObject::Slider(sl) => (sl.pos.x@, sl.pos.y@),
        HitObject::Spinner(sp) => (sp.x@, sp.y@),
    }
}

/// Every kind of hit object reads its position from the same place: x is the
/// line's first comma-separated field and y its second, each trimmed, and
/// its time the third.
pub proof fn lemma_object_position_read(o: HitObject, line: Seq<char>)
    requires
        hit_object_matches(o, split(line, ',')),
    ensures
        split(line, ',').len() >= 3,
        object_position(o).0 == trim(split(line, ',')[0]),
        object_position(o).1 == trim(split(line, ',')[1]),
        (match o {
            HitObject::Circle(c) => c.time@,
            HitObject::Slider(sl) => sl.time@,
            HitObject::Spinner(sp) => sp.time@,
        }) == trim(split(line, ',')[2]),
{
}

/// `a` with more text after it starts with `a`.
proof fn lemma_starts_with(a: Seq<char>, b: Seq<char>)
    ensures
        (a + b).take(a.len() as int) == a,
{
    assert((a + b).take(a.len() as int) =~= a);
}

/// The text `x,y,time,` that a hit object's line starts with.
pub open spec fn position_head(x: Seq<char>, y: Seq<char>, time: Seq<char>) -> Seq<char> {
    x + ","@ + y + ","@ + time + ","@
}

/// A text that starts with `h` and goes on.
pub open spec fn starts_with(s: Seq<char>, h: Seq<char>) -> bool {
    h.len() <= s.len() && s.take(h.len() as int) == h
}

proof fn lemma_starts_with_more(s: Seq<char>, h: Seq<char>, t: Seq<char>)
    requires
        starts_with(s, h),
    ensures
        starts_with(s + t, h),
{
    assert((s + t).take(h.len() as int) =~= s.take(h.len() as int));
}

/// Every kind of hit object is written x first, then y, then its time, each
/// followed by a comma.
pub proof fn lemma_object_position_written(o: HitObject)
    ensures
        starts_with(
            hit_object_text(o),
            position_head(
                object_position(o).0,
                object_position(o).1,
                match o {
                    HitObject::Circle(c) => c.time@,
                    HitObject::Slider(sl) => sl.time@,
                    HitObject::Spinner(sp) => sp.time@,
                },
            ),
        ),
{
    match o {
        HitObject::Circle(c) => {
            let h = position_head(c.pos.x@, c.pos.y@, c.time@);
            let t = Type { circle: true, slider: false, spinner: false, mania_hold: false, combo_info: c.combo_info };
            lemma_starts_with(h, seq![]);
            assert(h + seq![] =~= h);
            let s1 = h + int_text(type_bits(t) as int);
            lemma_starts_with_more(h, h, int_text(type_bits(t) as int));
            lemma_starts_with_more(s1, h, ","@);
            let s2 = s1 + ","@;
            lemma_starts_with_more(s2, h, int_text(hitsound_bits(c.hitsound) as int));
            let s3 = s2 + int_text(hitsound_bits(c.hitsound) as int);
            lemma_starts_with_more(s3, h, ","@);
            let s4 = s3 + ","@;
            lemma_starts_with_more(s4, h, hit_sample_text(c.hitsample));
            let s5 = s4 + hit_sample_text(c.hitsample);
            lemma_starts_with_more(s5, h, "\n"@);
        },
        HitObject::Slider(sl) => lemma_slider_head(sl),
        HitObject::Spinner(sp) => {
            let h = position_head(sp.x@, sp.y@, sp.time@);
            let t = Type { circle: false, slider: false, spinner: true, mania_hold: false, combo_info: sp.combo_info };
            lemma_starts_with(h, seq![]);
            assert(h + seq![] =~= h);
            let s1 = h + int_text(type_bits(t) as int);
            lemma_starts_with_more(h, h, int_text(type_bits(t) as int));
            lemma_starts_with_more(s1, h, ","@);
            let s2 = s1 + ","@;
            lemma_starts_with_more(s2, h, int_text(hitsound_bits(sp.hitsound) as int));
            let s3 = s2 + int_text(hitsound_bits(sp.hitsound) as int);
            lemma_starts_with_more(s3, h, ","@);
            let s4 = s3 + ","@;
            lemma_starts_with_more(s4, h, sp.end_time@);
            let s5 = s4 + sp.end_time@;
            lemma_starts_with_more(s5, h, ","@);
            let s6 = s5 + ","@;
            lemma_starts_with_more(s6, h, hit_sample_text(sp.hitsample));
            let s7 = s6 + hit_sample_text(sp.hitsample);
            lemma_starts_with_more(s7, h, "\n"@);
        },
    }
}

/// A slider's line starts with `x,y,time,`.
proof fn lemma_slider_head(sl: Slider)
    ensures
        starts_with(slider_text(sl), position_head(sl.pos.x@, sl.pos.y@, sl.time@)),
{
    let h = position_head(sl.pos.x@, sl.pos.y@, sl.time@);
    let t = Type { circle: false, slider: true, spinner: false, mania_hold: false, combo_info: sl.combo_info };
    lemma_starts_with(h, seq![]);
    assert(h + seq![] =~= h);
    lemma_starts_with_more(h, h, int_text(type_bits(t) as int));
    let s0 = h + int_text(type_bits(t) as int);
    lemma_starts_with_more(s0, h, ","@);
    let s1 = s0 + ","@;
    lemma_starts_with_more(s1, h, int_text(hitsound_bits(sl.hitsound) as int));
    let s2 = s1 + int_text(hitsound_bits(sl.hitsound) as int);
    lemma_starts_with_more(s2, h, ","@);
    let s3 = s2 + ","@;
    lemma_starts_with_more(s3, h, curve_text(sl.curve_type@, sl.curve_points@));
    let s4 = s3 + curve_text(sl.curve_type@, sl.curve_points@);
    lemma_starts_with_more(s4, h, ","@);
    let s5 = s4 + ","@;
    lemma_starts_with_more(s5, h, int_text(sl.slides as int));
    let s6 = s5 + int_text(sl.slides as int);
    lemma_starts_with_more(s6, h, ","@);
    let s7 = s6 + ","@;
    lemma_starts_with_more(s7, h, sl.length_pixels@);
    let s8 = s7 + sl.length_pixels@;
    lemma_starts_with_more(s8, h, ","@);
    let s9 = s8 + ","@;
    lemma_starts_with_more(s9, h, edge_sounds_text(sl.edge_sounds@));
    let s10 = s9 + edge_sounds_text(sl.edge_sounds@);
    lemma_starts_with_more(s10, h, ","@);
    let s11 = s10 + ","@;
    lemma_starts_with_more(s11, h, edge_sets_text(sl.edge_sets@));
    let s12 = s11 + edge_sets_text(sl.edge_sets@);
    lemma_starts_with_more(s12, h, ","@);
    let s13 = s12 + ","@;
    lemma_starts_with_more(s13, h, hit_sample_text(sl.hitsample));
    let s14 = s13 + hit_sample_text(sl.hitsample);
    lemma_starts_with_more(s14, h, "\n"@);
    let s15 = s14 + "\n"@;
    assert(s15 == slider_text(sl));
}

} // verus!
