//! The `[Metadata]` section.
use vstd::prelude::*;
use crate::text::{chars_of, int_text, parse_int, parse_int_vec, push_int, push_str, string_of, trim, trim_vec};
use crate::dotosu::helpers::{KeyValuePairs, get_key_value_pairs, key_value_pairs, lookup};

verus! {

#[derive(Clone, Debug, PartialEq)]
pub struct MetadataSection {
    pub title: String,
    pub title_unicode: String,
    pub artist: String,
    pub artist_unicode: String,
    pub creator: String,
    pub version: String,
    pub source: String,
    pub tags: String,
    pub beatmap_id: i64,
    pub beatmapset_id: i64,
}

/// A beatmap id as the section gives it.
#[derive(Clone, Debug, PartialEq)]
pub enum IdField {
    /// The key is there with a valid `i64`.
    Given(i64),
    /// The key is not there: the editor asks the user for the id.
    Missing,
    /// The key is there but its value is no `i64`: the section is refused.
    Malformed,
}

/// What the `[Metadata]` section says, before missing ids are asked for.
#[derive(Clone, Debug, PartialEq)]
pub struct MetadataFields {
    pub title: String,
    pub title_unicode: String,
    pub artist: String,
    pub artist_unicode: String,
    pub creator: String,
    pub version: String,
    pub source: String,
    pub tags: String,
    pub beatmap_id: IdField,
    pub beatmapset_id: IdField,
}

pub open spec fn i64_value(s: Seq<char>) -> Option<int> {
    parse_int(s, i64::MIN as int, i64::MAX as int)
}

/// How the id under `key` stands among `pairs`.
pub open spec fn id_field_matches(f: IdField, pairs: Seq<(Seq<char>, Seq<char>)>, key: Seq<char>) -> bool {
    match lookup(pairs, key) {
        None => f is Missing,
        Some(v) => match i64_value(v) {
            Some(n) => f == IdField::Given(n as i64),
            None => f is Malformed,
        },
    }
}

/// The value of `key`, or the empty text.
pub open spec fn value_or_empty(pairs: Seq<(Seq<char>, Seq<char>)>, key: Seq<char>) -> Seq<char> {
    match lookup(pairs, key) {
        Some(v) => v,
        None => seq![],
    }
}

/// The keys that the section must hold.
pub open spec fn has_required_metadata(pairs: Seq<(Seq<char>, Seq<char>)>) -> bool {
    &&& lookup(pairs, "Title"@) is Some
    &&& lookup(pairs, "TitleUnicode"@) is Some
    &&& lookup(pairs, "Artist"@) is Some
    &&& lookup(pairs, "ArtistUnicode"@) is Some
    &&& lookup(pairs, "Creator"@) is Some
    &&& lookup(pairs, "Version"@) is Some
}

/// `m` holds what `pairs` say.
pub open spec fn metadata_fields_match(m: MetadataFields, pairs: Seq<(Seq<char>, Seq<char>)>) -> bool {
    &&& Some(m.title@) == lookup(pairs, "Title"@)
    &&& Some(m.title_unicode@) == lookup(pairs, "TitleUnicode"@)
    &&& Some(m.artist@) == lookup(pairs, "Artist"@)
    &&& Some(m.artist_unicode@) == lookup(pairs, "ArtistUnicode"@)
    &&& Some(m.creator@) == lookup(pairs, "Creator"@)
    &&& Some(m.version@) == lookup(pairs, "Version"@)
    &&& m.source@ == value_or_empty(pairs, "Source"@)
    &&& m.tags@ == value_or_empty(pairs, "Tags"@)
    &&& id_field_matches(m.beatmap_id, pairs, "BeatmapID"@)
    &&& id_field_matches(m.beatmapset_id, pairs, "BeatmapSetID"@)
}

fn required(pairs: &KeyValuePairs, key: &str) -> (r: Option<String>)
    ensures
        r is Some <==> lookup(pairs.pairs(), key@) is Some,
        r matches Some(v) ==> lookup(pairs.pairs(), key@) == Some(v@),
{
    pairs.get(key)
}

fn optional(pairs: &KeyValuePairs, key: &str) -> (r: String)
    ensures
        r@ == value_or_empty(pairs.pairs(), key@),
{
    match pairs.get(key) {
        Some(v) => v,
        None => {
            let e: Vec<char> = Vec::new();
            assert(e@ =~= Seq::<char>::empty());
            string_of(&e)
        },
    }
}

fn id_field(pairs: &KeyValuePairs, key: &str) -> (r: IdField)
    ensures
        id_field_matches(r, pairs.pairs(), key@),
{
    match pairs.get_chars(&chars_of(key)) {
        None => IdField::Missing,
        Some(v) => match parse_int_vec(&v, i64::MIN as i128, i64::MAX as i128) {
            Some(n) => IdField::Given(n as i64),
            None => IdField::Malformed,
        },
    }
}

/// Reads the `[Metadata]` section; `None` where its lines are not distinct
/// `Key:Value` pairs or one of the required keys is missing.
pub fn parse_metadata_fields(section: &str) -> (r: Option<MetadataFields>)
    ensures
        r is Some <==> (key_value_pairs(section@) matches Some(p) && has_required_metadata(p)),
        r matches Some(m) ==> metadata_fields_match(m, key_value_pairs(section@).unwrap()),
{
    let pairs = match get_key_value_pairs(section) {
        Some(p) => p,
        None => return None,
    };
    let title = match required(&pairs, "Title") {
        Some(v) => v,
        None => return None,
    };
    let title_unicode = match required(&pairs, "TitleUnicode") {
        Some(v) => v,
        None => return None,
    };
    let artist = match required(&pairs, "Artist") {
        Some(v) => v,
        None => return None,
    };
    let artist_unicode = match required(&pairs, "ArtistUnicode") {
        Some(v) => v,
        None => return None,
    };
    let creator = match required(&pairs, "Creator") {
        Some(v) => v,
        None => return None,
    };
    let version = match required(&pairs, "Version") {
        Some(v) => v,
        None => return None,
    };
    let source = optional(&pairs, "Source");
    let tags = optional(&pairs, "Tags");
    let beatmap_id = id_field(&pairs, "BeatmapID");
    let beatmapset_id = id_field(&pairs, "BeatmapSetID");
    Some(
        MetadataFields {
            title,
            title_unicode,
            artist,
            artist_unicode,
            creator,
            version,
            source,
            tags,
            beatmap_id,
            beatmapset_id,
        },
    )
}

/// The message that asks the user for a missing id.
pub fn prompt_message(file_name: &str, field_name: &str) -> (r: String)
    ensures
        r@ == "beatmap file "@ + file_name@ + " is missing "@ + field_name@
            + ", type it manually"@,
{
    let mut out: Vec<char> = Vec::new();
    push_str(&mut out, "beatmap file ");
    push_str(&mut out, file_name);
    push_str(&mut out, " is missing ");
    push_str(&mut out, field_name);
    push_str(&mut out, ", type it manually");
    string_of(&out)
}

/// Reads the user's answer to the prompt for an id: an `i64` after trimming.
pub fn parse_prompt_answer(input: &str) -> (r: Option<i64>)
    ensures
        r matches Some(n) ==> i64_value(trim(input@)) == Some(n as int),
        r is None ==> i64_value(trim(input@)) is None,
{
    let v = trim_vec(&chars_of(input));
    match parse_int_vec(&v, i64::MIN as i128, i64::MAX as i128) {
        Some(n) => Some(n as i64),
        None => None,
    }
}

/// The `[Metadata]` lines for `m`.
pub open spec fn metadata_text(m: MetadataSection) -> Seq<char> {
    "Title:"@ + m.title@ + "\n"@ + "TitleUnicode:"@ + m.title_unicode@ + "\n"@ + "Artist:"@
        + m.artist@ + "\n"@ + "ArtistUnicode:"@ + m.artist_unicode@ + "\n"@ + "Creator:"@
        + m.creator@ + "\n"@ + "Version:"@ + m.version@ + "\n"@ + "Source:"@ + m.source@ + "\n"@
        + "Tags:"@ + m.tags@ + "\n"@ + "BeatmapID:"@ + int_text(m.beatmap_id as int) + "\n"@
        + "BeatmapSetID:"@ + int_text(m.beatmapset_id as int) + "\n"@
}

impl MetadataSection {
    /// Writes the section's lines.
    pub fn to_osu_text(&self) -> (r: String)
        ensures
            r@ == metadata_text(*self),
    {
        let mut out: Vec<char> = Vec::new();
        push_str(&mut out, "Title:");
        push_str(&mut out, self.title.as_str());
        push_str(&mut out, "\n");
        push_str(&mut out, "TitleUnicode:");
        push_str(&mut out, self.title_unicode.as_str());
        push_str(&mut out, "\n");
        push_str(&mut out, "Artist:");
        push_str(&mut out, self.artist.as_str());
        push_str(&mut out, "\n");
        push_str(&mut out, "ArtistUnicode:");
        push_str(&mut out, self.artist_unicode.as_str());
        push_str(&mut out, "\n");
        push_str(&mut out, "Creator:");
        push_str(&mut out, self.creator.as_str());
        push_str(&mut out, "\n");
        push_str(&mut out, "Version:");
        push_str(&mut out, self.version.as_str());
        push_str(&mut out, "\n");
        push_str(&mut out, "Source:");
        push_str(&mut out, self.source.as_str());
        push_str(&mut out, "\n");
        push_str(&mut out, "Tags:");
        push_str(&mut out, self.tags.as_str());
        push_str(&mut out, "\n");
        push_str(&mut out, "BeatmapID:");
        push_int(&mut out, self.beatmap_id as i128);
        push_str(&mut out, "\n");
        push_str(&mut out, "BeatmapSetID:");
        push_int(&mut out, self.beatmapset_id as i128);
        push_str(&mut out, "\n");
        string_of(&out)
    }
}

/// Each field read from a `[Metadata]` section is the value of its own key:
/// the title that of `Title`, the Unicode title that of `TitleUnicode`, the
/// artist that of `Artist`, the Unicode artist that of `ArtistUnicode`, the
/// creator that of `Creator` and the version that of `Version`.
pub proof fn lemma_metadata_read_keys(section: Seq<char>, m: MetadataFields)
    requires
        key_value_pairs(section) matches Some(p) && metadata_fields_match(m, p),
    ensures
        key_value_pairs(section) matches Some(p) && {
            &&& lookup(p, "Title"@) == Some(m.title@)
            &&& lookup(p, "TitleUnicode"@) == Some(m.title_unicode@)
            &&& lookup(p, "Artist"@) == Some(m.artist@)
            &&& lookup(p, "ArtistUnicode"@) == Some(m.artist_unicode@)
            &&& lookup(p, "Creator"@) == Some(m.creator@)
            &&& lookup(p, "Version"@) == Some(m.version@)
        },
{
}

} // verus!
