//! The `[TimingPoints]` section.
use vstd::prelude::*;
use crate::text::{
    chars_of, content_lines, field, field_vec, int_field, int_text, lemma_content_prefix, lines,
    lines_vec, parse_int, push_int, push_seq, push_str, split, split_vec, string_of, trim_vec,
    views,
};

use crate::float_syntax::{float_field, float_text};

verus! {

/// The effect bits of a timing point.
#[derive(Clone, Copy, Debug, PartialEq, Eq, Structural)]
pub struct TimingPointEffect {
    pub kiai_mode: bool,
    pub omit_first_barline: bool,
}

impl TimingPointEffect {
    /// Bit 0 is kiai mode, bit 3 omits the first barline.
    pub fn from_int(effects: i32) -> (r: TimingPointEffect)
        ensures
            r.kiai_mode == (effects & 1 != 0),
            r.omit_first_barline == (effects & 8 != 0),
    {
        TimingPointEffect { kiai_mode: (effects & 1) != 0, omit_first_barline: (effects & 8) != 0 }
    }

    /// The effect bits.
    pub fn to_int(&self) -> (r: i32)
        ensures
            r == effect_bits(*self),
    {
        let mut effects: i32 = 0;
        if self.kiai_mode {
            effects = effects | 1;
        }
        if self.omit_first_barline {
            effects = effects | 8;
        }
        assert(0i32 | 1i32 == 1i32 && 0i32 | 8i32 == 8i32 && 1i32 | 8i32 == 9i32) by (bit_vector);
        effects
    }
}

pub open spec fn effect_bits(e: TimingPointEffect) -> i32 {
    ((if e.kiai_mode { 1int } else { 0 }) + (if e.omit_first_barline { 8int } else { 0 })) as i32
}

pub open spec fn effect_of(bits: i32) -> TimingPointEffect {
    TimingPointEffect { kiai_mode: bits & 1 != 0, omit_first_barline: bits & 8 != 0 }
}

/// Reading back the bits of an effect gives the effect.
pub proof fn lemma_effect_roundtrip(e: TimingPointEffect)
    ensures
        effect_of(effect_bits(e)) == e,
{
    assert(1i32 & 1 != 0 && 1i32 & 8 == 0 && 8i32 & 1 == 0 && 8i32 & 8 != 0 && 9i32 & 1 != 0 && 9i32
        & 8 != 0 && 0i32 & 1 == 0 && 0i32 & 8 == 0) by (bit_vector);
}

/// The bits of the effect read from `bits` are the two effect bits of `bits`.
pub proof fn lemma_effect_bits_of(bits: i32)
    ensures
        effect_bits(effect_of(bits)) == bits & 9,
{
    assert((bits & 1 != 0) == (bits & 9 & 1 != 0)) by (bit_vector);
    assert(bits & 9 == (if bits & 1 != 0 { 1i32 } else { 0i32 }) + (if bits & 8 != 0 { 8i32 } else { 0i32 })) by (bit_vector);
}

/// A red (uninherited) line. `time` and `beat_length` hold decimal text.
#[derive(Clone, Debug, PartialEq)]
pub struct RedLine {
    pub time: String,
    pub beat_length: String,
    pub meter: i32,
    pub sample_set: i32,
    pub sample_index: i32,
    pub volume: i8,
    pub effects: TimingPointEffect,
}

/// A green (inherited) line. `time` and `beat_length` hold decimal text; the
/// slider velocity multiplier is `-100 / beat_length`.
#[derive(Clone, Debug, PartialEq)]
pub struct GreenLine {
    pub time: String,
    pub beat_length: String,
    pub sample_set: i32,
    pub sample_index: i32,
    pub volume: i8,
    pub effects: TimingPointEffect,
}

#[derive(Clone, Debug, PartialEq)]
pub enum TimingPoint {
    RedLine(RedLine),
    GreenLine(GreenLine),
}

#[derive(Clone, Debug, PartialEq)]
pub struct TimingSection {
    pub timing_points: Vec<TimingPoint>,
}

pub open spec fn i32_value(s: Seq<char>) -> Option<int> {
    parse_int(s, i32::MIN as int, i32::MAX as int)
}

pub open spec fn i8_value(s: Seq<char>) -> Option<int> {
    parse_int(s, i8::MIN as int, i8::MAX as int)
}

/// A timing point line, split at its commas, is valid.
pub open spec fn timing_line_ok(p: Seq<Seq<char>>) -> bool {
    &&& p.len() >= 8
    &&& float_text(field(p, 0))
    &&& float_text(field(p, 1))
    &&& i32_value(field(p, 2)) is Some
    &&& i32_value(field(p, 3)) is Some
    &&& i32_value(field(p, 4)) is Some
    &&& i8_value(field(p, 5)) is Some
    &&& i32_value(field(p, 6)) is Some
    &&& i32_value(field(p, 7)) is Some
}

/// `tp` holds what the split line `p` says.
pub open spec fn timing_point_matches(tp: TimingPoint, p: Seq<Seq<char>>) -> bool {
    let effects = effect_of(i32_value(field(p, 7)).unwrap() as i32);
    timing_line_ok(p) && match tp {
        TimingPoint::RedLine(rl) => {
            &&& i32_value(field(p, 6)) == Some(1int)
            &&& rl.time@ == field(p, 0)
            &&& rl.beat_length@ == field(p, 1)
            &&& i32_value(field(p, 2)) == Some(rl.meter as int)
            &&& i32_value(field(p, 3)) == Some(rl.sample_set as int)
            &&& i32_value(field(p, 4)) == Some(rl.sample_index as int)
            &&& i8_value(field(p, 5)) == Some(rl.volume as int)
            &&& rl.effects == effects
        },
        TimingPoint::GreenLine(gl) => {
            &&& i32_value(field(p, 6)) != Some(1int)
            &&& gl.time@ == field(p, 0)
            &&& gl.beat_length@ == field(p, 1)
            &&& i32_value(field(p, 3)) == Some(gl.sample_set as int)
            &&& i32_value(field(p, 4)) == Some(gl.sample_index as int)
            &&& i8_value(field(p, 5)) == Some(gl.volume as int)
            &&& gl.effects == effects
        },
    }
}

/// Reads one timing point line (already trimmed, not empty).
pub fn parse_timing_line(line: &Vec<char>) -> (r: Option<TimingPoint>)
    ensures
        r is Some <==> timing_line_ok(split(line@, ',')),
        r matches Some(tp) ==> timing_point_matches(tp, split(line@, ',')),
{
    let parts = split_vec(line, ',');
    if parts.len() < 8 {
        return None;
    }
    if !float_field(&parts, 0) || !float_field(&parts, 1) {
        return None;
    }
    let time = string_of(&field_vec(&parts, 0));
    let beat_length = string_of(&field_vec(&parts, 1));
    let meter = match int_field(&parts, 2, i32::MIN as i128, i32::MAX as i128) {
        Some(v) => v as i32,
        None => return None,
    };
    let sample_set = match int_field(&parts, 3, i32::MIN as i128, i32::MAX as i128) {
        Some(v) => v as i32,
        None => return None,
    };
    let sample_index = match int_field(&parts, 4, i32::MIN as i128, i32::MAX as i128) {
        Some(v) => v as i32,
        None => return None,
    };
    let volume = match int_field(&parts, 5, i8::MIN as i128, i8::MAX as i128) {
        Some(v) => v as i8,
        None => return None,
    };
    let uninherited = match int_field(&parts, 6, i32::MIN as i128, i32::MAX as i128) {
        Some(v) => v == 1,
        None => return None,
    };
    let effects = match int_field(&parts, 7, i32::MIN as i128, i32::MAX as i128) {
        Some(v) => TimingPointEffect::from_int(v as i32),
        None => return None,
    };
    if uninherited {
        Some(
            TimingPoint::RedLine(
                RedLine { time, beat_length, meter, sample_set, sample_index, volume, effects },
            ),
        )
    } else {
        Some(
            TimingPoint::GreenLine(
                GreenLine { time, beat_length, sample_set, sample_index, volume, effects },
            ),
        )
    }
}

/// Every content line of the section is a valid timing point line.
pub open spec fn timing_section_ok(section: Seq<char>) -> bool {
    let content = content_lines(lines(section));
    forall|i: int| 0 <= i < content.len() ==> timing_line_ok(split(#[trigger] content[i], ','))
}

/// `points` holds one timing point for each content line, in order.
pub open spec fn timing_points_match(points: Seq<TimingPoint>, content: Seq<Seq<char>>) -> bool {
    &&& points.len() == content.len()
    &&& forall|i: int|
        0 <= i < content.len() ==> timing_point_matches(#[trigger] points[i], split(content[i], ','))
}

/// Reads the `[TimingPoints]` section: one point per non-empty line; `None`
/// where a line is not a valid timing point.
pub fn parse_timing_section(section_text: &str) -> (r: Option<TimingSection>)
    ensures
        r is Some <==> timing_section_ok(section_text@),
        r matches Some(ts) ==> timing_points_match(
            ts.timing_points@,
            content_lines(lines(section_text@)),
        ),
{
    let text = chars_of(section_text);
    let ls = lines_vec(&text);
    let ghost all = views(ls@);
    let mut points: Vec<TimingPoint> = Vec::new();
    let mut i: usize = 0;
    while i < ls.len()
        invariant
            i <= ls.len(),
            all == views(ls@),
            all == lines(section_text@),
            timing_points_match(points@, content_lines(all.take(i as int))),
        decreases ls.len() - i,
    {
        let ghost before = content_lines(all.take(i as int));
        assert(all.take(i + 1).drop_last() =~= all.take(i as int));
        assert(all.take(i + 1).last() == ls@[i as int]@);
        let line = trim_vec(&ls[i]);
        if line.len() > 0 {
            match parse_timing_line(&line) {
                Some(tp) => {
                    points.push(tp);
                },
                None => {
                    proof {
                        lemma_content_prefix(all, i + 1);
                        let c = content_lines(all.take(i + 1));
                        assert(c[c.len() - 1] == line@);
                    }
                    return None;
                },
            }
        }
        i += 1;
        assert(timing_points_match(points@, content_lines(all.take(i as int))));
    }
    assert(all.take(ls.len() as int) =~= all);
    proof {
        let content = content_lines(all);
        assert forall|k: int| 0 <= k < content.len() implies timing_line_ok(
            split(#[trigger] content[k], ','),
        ) by {
            assert(timing_point_matches(points@[k], split(content[k], ',')));
        }
    }
    Some(TimingSection { timing_points: points })
}

/// A timing point's line.
pub open spec fn timing_point_text(tp: TimingPoint) -> Seq<char> {
    match tp {
        TimingPoint::RedLine(rl) => rl.time@ + ","@ + rl.beat_length@ + ","@ + int_text(
            rl.meter as int,
        ) + ","@ + int_text(rl.sample_set as int) + ","@ + int_text(rl.sample_index as int) + ","@
            + int_text(rl.volume as int) + ",1,"@ + int_text(effect_bits(rl.effects) as int) + "\n"@,
        TimingPoint::GreenLine(gl) => gl.time@ + ","@ + gl.beat_length@ + ",4,"@ + int_text(
            gl.sample_set as int,
        ) + ","@ + int_text(gl.sample_index as int) + ","@ + int_text(gl.volume as int) + ",0,"@
            + int_text(effect_bits(gl.effects) as int) + "\n"@,
    }
}

/// The lines of all points, in order.
pub open spec fn timing_points_text(ps: Seq<TimingPoint>) -> Seq<char>
    decreases ps.len(),
{
    if ps.len() == 0 {
        seq![]
    } else {
        timing_points_text(ps.drop_last()) + timing_point_text(ps.last())
    }
}

impl TimingPoint {
    fn push_text(&self, out: &mut Vec<char>)
        ensures
            final(out)@ == old(out)@ + timing_point_text(*self),
    {
        match self {
            TimingPoint::RedLine(rl) => {
                push_str(out, rl.time.as_str());
                push_str(out, ",");
                push_str(out, rl.beat_length.as_str());
                push_str(out, ",");
                push_int(out, rl.meter as i128);
                push_str(out, ",");
                push_int(out, rl.sample_set as i128);
                push_str(out, ",");
                push_int(out, rl.sample_index as i128);
                push_str(out, ",");
                push_int(out, rl.volume as i128);
                push_str(out, ",1,");
                push_int(out, rl.effects.to_int() as i128);
                push_str(out, "\n");
            },
            TimingPoint::GreenLine(gl) => {
                push_str(out, gl.time.as_str());
                push_str(out, ",");
                push_str(out, gl.beat_length.as_str());
                push_str(out, ",4,");
                push_int(out, gl.sample_set as i128);
                push_str(out, ",");
                push_int(out, gl.sample_index as i128);
                push_str(out, ",");
                push_int(out, gl.volume as i128);
                push_str(out, ",0,");
                push_int(out, gl.effects.to_int() as i128);
                push_str(out, "\n");
            },
        }
    }

    /// Writes the point's line.
    pub fn to_osu_text(&self) -> (r: String)
        ensures
            r@ == timing_point_text(*self),
    {
        let mut out: Vec<char> = Vec::new();
        self.push_text(&mut out);
        assert(out@ =~= timing_point_text(*self));
        string_of(&out)
    }
}

impl TimingSection {
    /// Writes the lines of all points.
    pub fn to_osu_text(&self) -> (r: String)
        ensures
            r@ == timing_points_text(self.timing_points@),
    {
        let mut out: Vec<char> = Vec::new();
        let mut i: usize = 0;
        while i < self.timing_points.len()
            invariant
                i <= self.timing_points.len(),
                out@ == timing_points_text(self.timing_points@.take(i as int)),
            decreases self.timing_points.len() - i,
        {
            assert(self.timing_points@.take(i + 1).drop_last() =~= self.timing_points@.take(i as int));
            self.timing_points[i].push_text(&mut out);
            i += 1;
        }
        assert(self.timing_points@.take(i as int) =~= self.timing_points@);
        string_of(&out)
    }
}

} // verus!
