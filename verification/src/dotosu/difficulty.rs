//! The `[Difficulty]` section.
use vstd::prelude::*;
use crate::text::{chars_of, push_str, string_of};
use crate::float_syntax::{float_text, is_float_text};
use crate::dotosu::helpers::{KeyValuePairs, get_key_value_pairs, key_value_pairs, lookup};

verus! {

/// The `[Difficulty]` section; each value is the decimal text the file gives.
#[derive(Clone, Debug, PartialEq)]
pub struct DifficultySection {
    pub hp: String,
    pub cs: String,
    pub od: String,
    pub ar: String,
    pub slider_multiplier: String,
    pub slider_tick_rate: String,
}

/// `d` holds what `pairs` say.
pub open spec fn difficulty_matches(d: DifficultySection, pairs: Seq<(Seq<char>, Seq<char>)>) -> bool {
    &&& Some(d.hp@) == lookup(pairs, "HPDrainRate"@)
    &&& Some(d.cs@) == lookup(pairs, "CircleSize"@)
    &&& Some(d.od@) == lookup(pairs, "OverallDifficulty"@)
    &&& Some(d.ar@) == lookup(pairs, "ApproachRate"@)
    &&& Some(d.slider_multiplier@) == lookup(pairs, "SliderMultiplier"@)
    &&& Some(d.slider_tick_rate@) == lookup(pairs, "SliderTickRate"@)
}

/// `key` is there and its value reads as a number.
pub open spec fn number_value(pairs: Seq<(Seq<char>, Seq<char>)>, key: Seq<char>) -> bool {
    lookup(pairs, key) matches Some(v) && float_text(v)
}

/// All six keys are there, each with a number.
pub open spec fn difficulty_accepted(pairs: Seq<(Seq<char>, Seq<char>)>) -> bool {
    &&& number_value(pairs, "HPDrainRate"@)
    &&& number_value(pairs, "CircleSize"@)
    &&& number_value(pairs, "OverallDifficulty"@)
    &&& number_value(pairs, "ApproachRate"@)
    &&& number_value(pairs, "SliderMultiplier"@)
    &&& number_value(pairs, "SliderTickRate"@)
}

/// The value of `key` where it is there and reads as a number.
pub(crate) fn get_number(pairs: &KeyValuePairs, key: &str) -> (r: Option<String>)
    ensures
        r is Some <==> number_value(pairs.pairs(), key@),
        r matches Some(v) ==> lookup(pairs.pairs(), key@) == Some(v@),
{
    match pairs.get(key) {
        Some(v) => {
            let c = chars_of(v.as_str());
            if is_float_text(&c) {
                Some(v)
            } else {
                None
            }
        },
        None => None,
    }
}

/// Reads the `[Difficulty]` section; `None` where its lines are not distinct
/// `Key:Value` pairs or one of the six keys is missing or no number.
pub fn parse_difficulty_section(section: &str) -> (r: Option<DifficultySection>)
    ensures
        r is Some <==> (key_value_pairs(section@) matches Some(p) && difficulty_accepted(p)),
        r matches Some(d) ==> difficulty_matches(d, key_value_pairs(section@).unwrap()),
{
    let pairs = match get_key_value_pairs(section) {
        Some(p) => p,
        None => return None,
    };
    let hp = match get_number(&pairs, "HPDrainRate") {
        Some(v) => v,
        None => return None,
    };
    let cs = match get_number(&pairs, "CircleSize") {
        Some(v) => v,
        None => return None,
    };
    let od = match get_number(&pairs, "OverallDifficulty") {
        Some(v) => v,
        None => return None,
    };
    let ar = match get_number(&pairs, "ApproachRate") {
        Some(v) => v,
        None => return None,
    };
    let slider_multiplier = match get_number(&pairs, "SliderMultiplier") {
        Some(v) => v,
        None => return None,
    };
    let slider_tick_rate = match get_number(&pairs, "SliderTickRate") {
        Some(v) => v,
        None => return None,
    };
    Some(DifficultySection { hp, cs, od, ar, slider_multiplier, slider_tick_rate })
}

/// The `[Difficulty]` lines for `d`.
pub open spec fn difficulty_text(d: DifficultySection) -> Seq<char> {
    "HPDrainRate:"@ + d.hp@ + "\n"@ + "CircleSize:"@ + d.cs@ + "\n"@ + "OverallDifficulty:"@ + d.od@
        + "\n"@ + "ApproachRate:"@ + d.ar@ + "\n"@ + "SliderMultiplier:"@ + d.slider_multiplier@
        + "\n"@ + "SliderTickRate:"@ + d.slider_tick_rate@ + "\n"@
}

impl DifficultySection {
    /// Writes the section's lines.
    pub fn to_osu_text(&self) -> (r: String)
        ensures
            r@ == difficulty_text(*self),
    {
        let mut out: Vec<char> = Vec::new();
        push_str(&mut out, "HPDrainRate:");
        push_str(&mut out, self.hp.as_str());
        push_str(&mut out, "\n");
        push_str(&mut out, "CircleSize:");
        push_str(&mut out, self.cs.as_str());
        push_str(&mut out, "\n");
        push_str(&mut out, "OverallDifficulty:");
        push_str(&mut out, self.od.as_str());
        push_str(&mut out, "\n");
        push_str(&mut out, "ApproachRate:");
        push_str(&mut out, self.ar.as_str());
        push_str(&mut out, "\n");
        push_str(&mut out, "SliderMultiplier:");
        push_str(&mut out, self.slider_multiplier.as_str());
        push_str(&mut out, "\n");
        push_str(&mut out, "SliderTickRate:");
        push_str(&mut out, self.slider_tick_rate.as_str());
        push_str(&mut out, "\n");
        string_of(&out)
    }
}

} // verus!
