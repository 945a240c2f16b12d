//! The `[General]` section.
use vstd::prelude::*;
use crate::text::{int_text, parse_int, parse_int_vec, push_int, push_str, string_of};
use crate::dotosu::helpers::{KeyValuePairs, get_key_value_pairs, key_value_pairs, lookup};
use crate::dotosu::difficulty::{get_number, number_value};

verus! {

/// The `[General]` section. Decimal numbers are held as the text that the file
/// gives for them.
#[derive(Clone, Debug, PartialEq)]
pub struct GeneralSection {
    pub audio_filename: String,
    /// Decimal text.
    pub audio_lead_in: String,
    pub preview_time: i64,
    pub countdown: bool,
    pub sample_set: String,
    /// Decimal text.
    pub stack_leniency: String,
    pub mode: u8,
    pub letterbox_in_breaks: bool,
    pub epilepsy_warning: bool,
    pub widescreen_storyboard: bool,
}

pub open spec fn u8_value(s: Seq<char>) -> Option<int> {
    parse_int(s, 0, 255)
}

pub open spec fn i64_value(s: Seq<char>) -> Option<int> {
    parse_int(s, i64::MIN as int, i64::MAX as int)
}

/// `key` is there and its value satisfies `ok`.
pub open spec fn required_u8(pairs: Seq<(Seq<char>, Seq<char>)>, key: Seq<char>) -> bool {
    lookup(pairs, key) matches Some(v) && u8_value(v) is Some
}

/// `key` is absent, or its value is a `u8`.
pub open spec fn optional_u8(pairs: Seq<(Seq<char>, Seq<char>)>, key: Seq<char>) -> bool {
    lookup(pairs, key) matches Some(v) ==> u8_value(v) is Some
}

/// A `0`/`1` flag: set where the value is a nonzero `u8`.
pub open spec fn flag(pairs: Seq<(Seq<char>, Seq<char>)>, key: Seq<char>) -> bool {
    match lookup(pairs, key) {
        Some(v) => u8_value(v) matches Some(n) && n != 0,
        None => false,
    }
}

/// The section is accepted.
pub open spec fn general_accepted(pairs: Seq<(Seq<char>, Seq<char>)>) -> bool {
    &&& lookup(pairs, "AudioFilename"@) is Some
    &&& number_value(pairs, "AudioLeadIn"@)
    &&& (lookup(pairs, "PreviewTime"@) matches Some(v) && i64_value(v) is Some)
    &&& required_u8(pairs, "Countdown"@)
    &&& lookup(pairs, "SampleSet"@) is Some
    &&& number_value(pairs, "StackLeniency"@)
    &&& required_u8(pairs, "Mode"@)
    &&& optional_u8(pairs, "LetterboxInBreaks"@)
    &&& optional_u8(pairs, "EpilepsyWarning"@)
    &&& optional_u8(pairs, "WidescreenStoryboard"@)
}

/// `g` holds what `pairs` say.
pub open spec fn general_matches(g: GeneralSection, pairs: Seq<(Seq<char>, Seq<char>)>) -> bool {
    &&& Some(g.audio_filename@) == lookup(pairs, "AudioFilename"@)
    &&& Some(g.audio_lead_in@) == lookup(pairs, "AudioLeadIn"@)
    &&& Some(g.preview_time as int) == i64_value(lookup(pairs, "PreviewTime"@).unwrap())
    &&& g.countdown == flag(pairs, "Countdown"@)
    &&& Some(g.sample_set@) == lookup(pairs, "SampleSet"@)
    &&& Some(g.stack_leniency@) == lookup(pairs, "StackLeniency"@)
    &&& Some(g.mode as int) == u8_value(lookup(pairs, "Mode"@).unwrap())
    &&& g.letterbox_in_breaks == flag(pairs, "LetterboxInBreaks"@)
    &&& g.epilepsy_warning == flag(pairs, "EpilepsyWarning"@)
    &&& g.widescreen_storyboard == flag(pairs, "WidescreenStoryboard"@)
}

fn get_u8(pairs: &KeyValuePairs, key: &str) -> (r: Option<Option<u8>>)
    ensures
        r matches Some(Some(x)) ==> (lookup(pairs.pairs(), key@) matches Some(v) && u8_value(v) == Some(
            x as int,
        )),
        r is None <==> lookup(pairs.pairs(), key@) is None,
        r matches Some(None) ==> (lookup(pairs.pairs(), key@) matches Some(v) && u8_value(v) is None),
{
    match pairs.get(key) {
        None => None,
        Some(v) => {
            let c = crate::text::chars_of(v.as_str());
            match parse_int_vec(&c, 0, 255) {
                Some(n) => Some(Some(n as u8)),
                None => Some(None),
            }
        },
    }
}

/// Reads the `[General]` section; `None` where its lines are not distinct
/// `Key:Value` pairs, a required key is missing, or a number, an integer or a
/// flag is not valid.
pub fn parse_general_section(section: &str) -> (r: Option<GeneralSection>)
    ensures
        r is Some <==> (key_value_pairs(section@) matches Some(p) && general_accepted(p)),
        r matches Some(g) ==> general_matches(g, key_value_pairs(section@).unwrap()),
{
    let pairs = match get_key_value_pairs(section) {
        Some(p) => p,
        None => return None,
    };
    let audio_filename = match pairs.get("AudioFilename") {
        Some(v) => v,
        None => return None,
    };
    let audio_lead_in = match get_number(&pairs, "AudioLeadIn") {
        Some(v) => v,
        None => return None,
    };
    let preview_time = match pairs.get("PreviewTime") {
        Some(v) => {
            let c = crate::text::chars_of(v.as_str());
            match parse_int_vec(&c, i64::MIN as i128, i64::MAX as i128) {
                Some(n) => n as i64,
                None => return None,
            }
        },
        None => return None,
    };
    let countdown = match get_u8(&pairs, "Countdown") {
        Some(Some(n)) => n != 0,
        _ => return None,
    };
    let sample_set = match pairs.get("SampleSet") {
        Some(v) => v,
        None => return None,
    };
    let stack_leniency = match get_number(&pairs, "StackLeniency") {
        Some(v) => v,
        None => return None,
    };
    let mode = match get_u8(&pairs, "Mode") {
        Some(Some(n)) => n,
        _ => return None,
    };
    let letterbox_in_breaks = match get_u8(&pairs, "LetterboxInBreaks") {
        Some(Some(n)) => n != 0,
        Some(None) => return None,
        None => false,
    };
    let epilepsy_warning = match get_u8(&pairs, "EpilepsyWarning") {
        Some(Some(n)) => n != 0,
        Some(None) => return None,
        None => false,
    };
    let widescreen_storyboard = match get_u8(&pairs, "WidescreenStoryboard") {
        Some(Some(n)) => n != 0,
        Some(None) => return None,
        None => false,
    };
    Some(
        GeneralSection {
            audio_filename,
            audio_lead_in,
            preview_time,
            countdown,
            sample_set,
            stack_leniency,
            mode,
            letterbox_in_breaks,
            epilepsy_warning,
            widescreen_storyboard,
        },
    )
}

pub open spec fn flag_text(b: bool) -> Seq<char> {
    if b {
        "1"@
    } else {
        "0"@
    }
}

/// The `[General]` lines for `g`.
pub open spec fn general_text(g: GeneralSection) -> Seq<char> {
    "AudioFilename:"@ + g.audio_filename@ + "\n"@ + "AudioLeadIn:"@ + g.audio_lead_in@ + "\n"@
        + "PreviewTime:"@ + int_text(g.preview_time as int) + "\n"@ + "Countdown:"@ + flag_text(
        g.countdown,
    ) + "\n"@ + "SampleSet:"@ + g.sample_set@ + "\n"@ + "StackLeniency:"@ + g.stack_leniency@
        + "\n"@ + "Mode:"@ + int_text(g.mode as int) + "\n"@ + "LetterboxInBreaks:"@ + flag_text(
        g.letterbox_in_breaks,
    ) + "\n"@ + "EpilepsyWarning:"@ + flag_text(g.epilepsy_warning) + "\n"@
        + "WidescreenStoryboard:"@ + flag_text(g.widescreen_storyboard) + "\n"@
}

fn push_flag(out: &mut Vec<char>, b: bool)
    ensures
        final(out)@ == old(out)@ + flag_text(b),
{
    if b {
        push_str(out, "1");
    } else {
        push_str(out, "0");
    }
}

impl GeneralSection {
    /// Writes the section's lines.
    pub fn to_osu_text(&self) -> (r: String)
        ensures
            r@ == general_text(*self),
    {
        let mut out: Vec<char> = Vec::new();
        push_str(&mut out, "AudioFilename:");
        push_str(&mut out, self.audio_filename.as_str());
        push_str(&mut out, "\n");
        push_str(&mut out, "AudioLeadIn:");
        push_str(&mut out, self.audio_lead_in.as_str());
        push_str(&mut out, "\n");
        push_str(&mut out, "PreviewTime:");
        push_int(&mut out, self.preview_time as i128);
        push_str(&mut out, "\n");
        push_str(&mut out, "Countdown:");
        push_flag(&mut out, self.countdown);
        push_str(&mut out, "\n");
        push_str(&mut out, "SampleSet:");
        push_str(&mut out, self.sample_set.as_str());
        push_str(&mut out, "\n");
        push_str(&mut out, "StackLeniency:");
        push_str(&mut out, self.stack_leniency.as_str());
        push_str(&mut out, "\n");
        push_str(&mut out, "Mode:");
        push_int(&mut out, self.mode as i128);
        push_str(&mut out, "\n");
        push_str(&mut out, "LetterboxInBreaks:");
        push_flag(&mut out, self.letterbox_in_breaks);
        push_str(&mut out, "\n");
        push_str(&mut out, "EpilepsyWarning:");
        push_flag(&mut out, self.epilepsy_warning);
        push_str(&mut out, "\n");
        push_str(&mut out, "WidescreenStoryboard:");
        push_flag(&mut out, self.widescreen_storyboard);
        push_str(&mut out, "\n");
        string_of(&out)
    }
}

} // verus!
