//! A whole `.osu` file: finding its sections and reading and writing them.
use vstd::prelude::*;
use vstd::utf8::{decode_utf8, valid_utf8};
use crate::text::{content_lines, lines, push_str, string_of};
use crate::dotosu::helpers::{get_section, section_body};
use crate::dotosu::colours::{ColoursSection, colour_matches, combo_count_is, combo_key, colours_section_ok, colours_text, parse_colours_section};
use crate::dotosu::difficulty::{
    DifficultySection, difficulty_accepted, difficulty_matches, difficulty_text, parse_difficulty_section,
};
use crate::dotosu::events::{
    EventLine, EventsSection, event_contents, event_lines_match, events_match, event_nesting_fits, events_section_ok, events_text, parse_events_section,
};
use crate::dotosu::general::{GeneralSection, general_accepted, general_matches, general_text, parse_general_section};
use crate::dotosu::helpers::{key_value_pairs, lookup};
use crate::dotosu::metadata::{MetadataSection, metadata_text};
use crate::dotosu::objects::{HitObjectsSection, hit_objects_match, hit_objects_text, objects_section_ok, parse_objects_section};
use crate::dotosu::timing::{TimingSection, parse_timing_section, timing_points_match, timing_points_text, timing_section_ok};

verus! {

#[derive(Debug, PartialEq)]
pub struct OsuFile {
    pub general: GeneralSection,
    pub metadata: MetadataSection,
    pub difficulty: DifficultySection,
    pub events: EventsSection,
    pub timing: TimingSection,
    pub colours: ColoursSection,
    pub objects: HitObjectsSection,
}

/// The bodies of the seven sections of a `.osu` text.
#[derive(Clone, Debug, PartialEq)]
pub struct OsuSections {
    pub general: String,
    pub metadata: String,
    pub difficulty: String,
    pub events: String,
    pub timing: String,
    pub colours: String,
    pub objects: String,
}

/// `std::str::from_utf8`, with the text handed back as a `String`: the text
/// that the bytes encode in UTF-8, or `None` where they are no valid UTF-8.
#[verifier::external_body]
fn utf8_text(bytes: &[u8]) -> (r: Option<String>)
    ensures
        r is Some <==> valid_utf8(bytes@),
        r matches Some(t) ==> t@ == decode_utf8(bytes@),
{
    match std::str::from_utf8(bytes) {
        Ok(t) => Some(t.to_string()),
        Err(_) => None,
    }
}

/// All seven sections are there.
pub open spec fn has_all_sections(text: Seq<char>) -> bool {
    &&& section_body(text, "General"@) is Some
    &&& section_body(text, "Metadata"@) is Some
    &&& section_body(text, "Difficulty"@) is Some
    &&& section_body(text, "Events"@) is Some
    &&& section_body(text, "TimingPoints"@) is Some
    &&& section_body(text, "Colours"@) is Some
    &&& section_body(text, "HitObjects"@) is Some
}

/// `s` holds the bodies of the sections of `text`.
pub open spec fn sections_match(s: OsuSections, text: Seq<char>) -> bool {
    &&& section_body(text, "General"@) == Some(s.general@)
    &&& section_body(text, "Metadata"@) == Some(s.metadata@)
    &&& section_body(text, "Difficulty"@) == Some(s.difficulty@)
    &&& section_body(text, "Events"@) == Some(s.events@)
    &&& section_body(text, "TimingPoints"@) == Some(s.timing@)
    &&& section_body(text, "Colours"@) == Some(s.colours@)
    &&& section_body(text, "HitObjects"@) == Some(s.objects@)
}

fn section(text: &str, name: &str) -> (r: Option<String>)
    ensures
        r is Some <==> section_body(text@, name@) is Some,
        r matches Some(b) ==> section_body(text@, name@) == Some(b@),
{
    match get_section(text, name) {
        Some(b) => Some(b.to_owned()),
        None => None,
    }
}

/// Decodes a `.osu` file and finds its seven sections; `None` where the bytes
/// are no valid UTF-8 or a section is missing.
pub fn find_osu_sections(osu_data: &[u8]) -> (r: Option<OsuSections>)
    ensures
        r is Some <==> valid_utf8(osu_data@) && has_all_sections(decode_utf8(osu_data@)),
        r matches Some(s) ==> sections_match(s, decode_utf8(osu_data@)),
{
    let text = match utf8_text(osu_data) {
        Some(t) => t,
        None => return None,
    };
    let t = text.as_str();
    let general = match section(t, "General") {
        Some(b) => b,
        None => return None,
    };
    let metadata = match section(t, "Metadata") {
        Some(b) => b,
        None => return None,
    };
    let difficulty = match section(t, "Difficulty") {
        Some(b) => b,
        None => return None,
    };
    let events = match section(t, "Events") {
        Some(b) => b,
        None => return None,
    };
    let timing = match section(t, "TimingPoints") {
        Some(b) => b,
        None => return None,
    };
    let colours = match section(t, "Colours") {
        Some(b) => b,
        None => return None,
    };
    let objects = match section(t, "HitObjects") {
        Some(b) => b,
        None => return None,
    };
    Some(OsuSections { general, metadata, difficulty, events, timing, colours, objects })
}

/// The sections other than `[Metadata]` are all accepted.
pub open spec fn body_accepted(s: OsuSections) -> bool {
    &&& (key_value_pairs(s.general@) matches Some(p) && general_accepted(p))
    &&& (key_value_pairs(s.difficulty@) matches Some(p) && difficulty_accepted(p))
    &&& events_section_ok(s.events@)
    &&& timing_section_ok(s.timing@)
    &&& colours_section_ok(s.colours@)
    &&& objects_section_ok(s.objects@)
}

/// Reads the sections other than `[Metadata]` and puts the file together with
/// `metadata`; `None` where one of them is refused. What each section holds is
/// stated by its own parser.
pub fn parse_osu_body(sections: &OsuSections, metadata: MetadataSection) -> (r: Option<OsuFile>)
    ensures
        r is Some <==> body_accepted(*sections),
        r matches Some(f) ==> f.metadata == metadata,
        r matches Some(f) ==> general_matches(f.general, key_value_pairs(sections.general@).unwrap()),
        r matches Some(f) ==> difficulty_matches(
            f.difficulty,
            key_value_pairs(sections.difficulty@).unwrap(),
        ),
        r matches Some(f) ==> exists|els: Seq<EventLine>|
            #![trigger event_lines_match(els, event_contents(lines(sections.events@)))]
            event_lines_match(els, event_contents(lines(sections.events@))) && events_match(
                f.events.events@,
                els,
            ),
        r matches Some(f) ==> timing_points_match(
            f.timing.timing_points@,
            content_lines(lines(sections.timing@)),
        ),
        r matches Some(f) ==> combo_count_is(
            key_value_pairs(sections.colours@).unwrap(),
            f.colours.colors.len() as nat,
        ) && forall|k: int|
            0 <= k < f.colours.colors.len() ==> colour_matches(
                #[trigger] f.colours.colors@[k],
                lookup(key_value_pairs(sections.colours@).unwrap(), combo_key((k + 1) as nat)).unwrap(),
            ),
        r matches Some(f) ==> hit_objects_match(
            f.objects.objects@,
            content_lines(lines(sections.objects@)),
        ),
{
    let general = match parse_general_section(sections.general.as_str()) {
        Some(g) => g,
        None => return None,
    };
    let difficulty = match parse_difficulty_section(sections.difficulty.as_str()) {
        Some(d) => d,
        None => return None,
    };
    let events = match parse_events_section(sections.events.as_str()) {
        Some(e) => e,
        None => return None,
    };
    let timing = match parse_timing_section(sections.timing.as_str()) {
        Some(t) => t,
        None => return None,
    };
    let colours = match parse_colours_section(sections.colours.as_str()) {
        Some(c) => c,
        None => return None,
    };
    let objects = match parse_objects_section(sections.objects.as_str()) {
        Some(o) => o,
        None => return None,
    };
    Some(OsuFile { general, metadata, difficulty, events, timing, colours, objects })
}

/// The text of a whole file.
pub open spec fn osu_file_text(f: OsuFile) -> Seq<char> {
    "osu file format v14\n\n[General]\n"@ + general_text(f.general) + "\n[Metadata]\n"@
        + metadata_text(f.metadata) + "\n[Difficulty]\n"@ + difficulty_text(f.difficulty)
        + "\n[Events]\n"@ + events_text(f.events.events@) + "\n[TimingPoints]\n"@
        + timing_points_text(f.timing.timing_points@) + "\n[Colours]\n"@ + colours_text(
        f.colours.colors@,
    ) + "\n[HitObjects]\n"@ + hit_objects_text(f.objects.objects@) + "\n"@
}

impl OsuFile {
    /// Writes the whole file: a format line, then each section under its header.
    pub fn to_osu_text(&self) -> (r: String)
        requires
            forall|i: int|
                0 <= i < self.events.events@.len() ==> event_nesting_fits(
                    #[trigger] self.events.events@[i],
                ),
        ensures
            r@ == osu_file_text(*self),
    {
        let mut out: Vec<char> = Vec::new();
        push_str(&mut out, "osu file format v14\n\n[General]\n");
        push_str(&mut out, self.general.to_osu_text().as_str());
        push_str(&mut out, "\n[Metadata]\n");
        push_str(&mut out, self.metadata.to_osu_text().as_str());
        push_str(&mut out, "\n[Difficulty]\n");
        push_str(&mut out, self.difficulty.to_osu_text().as_str());
        push_str(&mut out, "\n[Events]\n");
        push_str(&mut out, self.events.to_osu_text().as_str());
        push_str(&mut out, "\n[TimingPoints]\n");
        push_str(&mut out, self.timing.to_osu_text().as_str());
        push_str(&mut out, "\n[Colours]\n");
        push_str(&mut out, self.colours.to_osu_text().as_str());
        push_str(&mut out, "\n[HitObjects]\n");
        push_str(&mut out, self.objects.to_osu_text().as_str());
        push_str(&mut out, "\n");
        assert(out@ =~= osu_file_text(*self));
        string_of(&out)
    }
}

} // verus!
