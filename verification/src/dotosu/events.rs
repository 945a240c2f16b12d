//! The `[Events]` section: backgrounds, videos, breaks and storyboard sprites
//! and animations with their (possibly nested) commands.
use vstd::prelude::*;
use crate::text::{
    chars_of, field, field_vec, find, find_vec, int_field, int_text, lead_in, lead_in_vec, lines,
    lines_vec, parse_int, push_int, push_str, same_text, split, split_vec, string_of, sub_vec,
    trim_char, trim_char_vec, trim_end, trim_end_vec, trim_start_in, views,
};

use crate::float_syntax::{float_field, float_text};

verus! {

#[derive(Clone, Debug, PartialEq)]
pub struct BackgroundEvent {
    pub file_path: String,
    /// Decimal text.
    pub start_time: String,
    /// Decimal text.
    pub x: String,
    /// Decimal text.
    pub y: String,
}

#[derive(Clone, Debug, PartialEq)]
pub struct VideoEvent {
    pub file_path: String,
    /// Decimal text.
    pub start_time: String,
    /// Decimal text.
    pub x: String,
    /// Decimal text.
    pub y: String,
}

#[derive(Clone, Debug, PartialEq)]
pub struct BreakEvent {
    /// Decimal text.
    pub start_time: String,
    /// Decimal text.
    pub end_time: String,
}

#[derive(Debug, PartialEq)]
pub struct Sprite {
    pub layer: String,
    pub origin: String,
    pub file_path: String,
    /// Decimal text.
    pub x: String,
    /// Decimal text.
    pub y: String,
    pub commands: Vec<Command>,
}

#[derive(Debug, PartialEq)]
pub struct Animation {
    pub layer: String,
    pub origin: String,
    pub file_path: String,
    /// Decimal text.
    pub x: String,
    /// Decimal text.
    pub y: String,
    /// Decimal text.
    pub frame_count: String,
    /// Decimal text.
    pub frame_delay: String,
    pub loop_type: String,
    pub commands: Vec<Command>,
}

#[derive(Debug, PartialEq)]
pub enum Event {
    Background(BackgroundEvent),
    Video(VideoEvent),
    Break(BreakEvent),
    Sprite(Sprite),
    Animation(Animation),
}

/// Times and values of the storyboard commands are decimal text.
#[derive(Clone, Debug, PartialEq)]
pub struct FadeCommand {
    pub easing: String,
    pub start_time: String,
    pub end_time: String,
    pub start_opacity: String,
    pub end_opacity: String,
}

#[derive(Clone, Debug, PartialEq)]
pub struct MoveCommand {
    pub easing: String,
    pub start_time: String,
    pub end_time: String,
    pub start_x: String,
    pub start_y: String,
    pub end_x: String,
    pub end_y: String,
}

#[derive(Clone, Debug, PartialEq)]
pub struct MoveXCommand {
    pub easing: String,
    pub start_time: String,
    pub end_time: String,
    pub start_x: String,
    pub end_x: String,
}

#[derive(Clone, Debug, PartialEq)]
pub struct MoveYCommand {
    pub easing: String,
    pub start_time: String,
    pub end_time: String,
    pub start_y: String,
    pub end_y: String,
}

#[derive(Clone, Debug, PartialEq)]
pub struct ScaleCommand {
    pub easing: String,
    pub start_time: String,
    pub end_time: String,
    pub start_scale: String,
    pub end_scale: String,
}

#[derive(Clone, Debug, PartialEq)]
pub struct VectorScaleCommand {
    pub easing: String,
    pub start_time: String,
    pub end_time: String,
    pub start_scale_x: String,
    pub start_scale_y: String,
    pub end_scale_x: String,
    pub end_scale_y: String,
}

#[derive(Clone, Debug, PartialEq)]
pub struct RotateCommand {
    pub easing: String,
    pub start_time: String,
    pub end_time: String,
    pub start_angle: String,
    pub end_angle: String,
}

#[derive(Clone, Debug, PartialEq)]
pub struct ColourCommand {
    pub easing: String,
    pub start_time: String,
    pub end_time: String,
    pub start_r: u8,
    pub start_g: u8,
    pub start_b: u8,
    pub end_r: u8,
    pub end_g: u8,
    pub end_b: u8,
}

#[derive(Clone, Copy, Debug, PartialEq, Eq, Structural)]
pub enum Parameter {
    FlipH,
    FlipV,
    AdditiveBlend,
}

#[derive(Clone, Debug, PartialEq)]
pub struct ParameterCommand {
    pub easing: String,
    pub start_time: String,
    pub end_time: String,
    pub parameter: Parameter,
}

#[derive(Debug, PartialEq)]
pub struct LoopCommand {
    pub start_time: String,
    pub loop_count: i32,
    pub inner_commands: Vec<Command>,
}

#[derive(Debug, PartialEq)]
pub struct TriggerCommand {
    pub trigger_type: String,
    pub start_time: String,
    pub end_time: String,
    pub inner_commands: Vec<Command>,
}

#[derive(Debug, PartialEq)]
pub enum Command {
    FadeCommand(FadeCommand),
    MoveCommand(MoveCommand),
    MoveXCommand(MoveXCommand),
    MoveYCommand(MoveYCommand),
    ScaleCommand(ScaleCommand),
    VectorScaleCommand(VectorScaleCommand),
    RotateCommand(RotateCommand),
    ColourCommand(ColourCommand),
    ParameterCommand(ParameterCommand),
    LoopCommand(LoopCommand),
    TriggerCommand(TriggerCommand),
}

/// A command line and the count of `_`/space characters that indent it.
#[derive(Debug, PartialEq)]
pub struct CommandLineWithTab {
    pub tab_count: i32,
    pub command: Command,
}

/// One line of the section: an event, or a command of the event above it.
#[derive(Debug, PartialEq)]
pub enum EventLine {
    Event(Event),
    Command(CommandLineWithTab),
}

#[derive(Debug, PartialEq)]
pub struct EventsSection {
    pub events: Vec<Event>,
}

pub open spec fn u8_value(s: Seq<char>) -> Option<int> {
    parse_int(s, 0, 255)
}

pub open spec fn i32_value(s: Seq<char>) -> Option<int> {
    parse_int(s, i32::MIN as int, i32::MAX as int)
}

/// The line without its `//` comment and trailing whitespace.
pub open spec fn event_content(line: Seq<char>) -> Seq<char> {
    match find(line, "//"@) {
        Some(i) => trim_end(line.take(i)),
        None => trim_end(line),
    }
}

/// The event type of a split line: its first part without leading `_`/spaces.
pub open spec fn event_type(p: Seq<Seq<char>>) -> Seq<char> {
    trim_start_in(p[0], ' ', '_')
}

/// The indentation of a line.
pub open spec fn tab_count(l: Seq<char>) -> i32 {
    lead_in(l, ' ', '_') as i32
}

/// Field `i`, or field `d` where the line has no part `i`.
pub open spec fn field_or(p: Seq<Seq<char>>, i: int, d: int) -> Seq<char> {
    if p.len() > i {
        field(p, i)
    } else {
        field(p, d)
    }
}

/// The parameter named by `H`, `V` or `A`.
pub open spec fn parameter_of(s: Seq<char>) -> Option<Parameter> {
    if s == "H"@ {
        Some(Parameter::FlipH)
    } else if s == "V"@ {
        Some(Parameter::FlipV)
    } else if s == "A"@ {
        Some(Parameter::AdditiveBlend)
    } else {
        None
    }
}

/// A content line of the section is valid.
pub open spec fn event_line_ok(l: Seq<char>) -> bool {
    let p = split(l, ',');
    p.len() >= 2 && event_line_ok_parts(p, event_type(p))
}

/// Field `i` of a split line, trimmed, reads as a number.
pub open spec fn number_at(p: Seq<Seq<char>>, i: int) -> bool {
    float_text(field(p, i))
}

/// A split line of type `et` has what its type needs: enough parts, and
/// numbers where its type has times, positions and values.
pub open spec fn event_line_ok_parts(p: Seq<Seq<char>>, et: Seq<char>) -> bool {
    if et == "0"@ || et == "1"@ || et == "Video"@ {
        p.len() >= 5 && number_at(p, 1) && number_at(p, 3) && number_at(p, 4)
    } else if et == "2"@ || et == "Break"@ {
        p.len() >= 3 && number_at(p, 1) && number_at(p, 2)
    } else if et == "Sprite"@ {
        p.len() >= 6 && number_at(p, 4) && number_at(p, 5)
    } else if et == "Animation"@ {
        p.len() >= 9 && number_at(p, 4) && number_at(p, 5) && number_at(p, 6) && number_at(p, 7)
    } else if et == "F"@ || et == "S"@ || et == "R"@ || et == "MX"@ || et == "MY"@ {
        &&& p.len() >= 5
        &&& number_at(p, 2) && number_at(p, 3) && number_at(p, 4)
        &&& p.len() >= 6 ==> number_at(p, 5)
    } else if et == "M"@ {
        &&& p.len() >= 8
        &&& number_at(p, 2) && number_at(p, 3) && number_at(p, 4) && number_at(p, 5)
        &&& number_at(p, 6) && number_at(p, 7)
    } else if et == "V"@ {
        &&& p.len() >= 6
        &&& number_at(p, 2) && number_at(p, 3) && number_at(p, 4) && number_at(p, 5)
        &&& p.len() >= 8 ==> number_at(p, 6) && number_at(p, 7)
    } else if et == "C"@ {
        &&& p.len() >= 7
        &&& number_at(p, 2) && number_at(p, 3)
        &&& u8_value(field(p, 4)) is Some
        &&& u8_value(field(p, 5)) is Some
        &&& u8_value(field(p, 6)) is Some
        &&& p.len() >= 10 ==> (u8_value(field(p, 7)) is Some && u8_value(field(p, 8)) is Some
            && u8_value(field(p, 9)) is Some)
    } else if et == "P"@ {
        &&& p.len() >= 5
        &&& number_at(p, 2) && number_at(p, 3)
        &&& parameter_of(trim_char(field(p, 4), '"')) is Some
    } else if et == "L"@ {
        p.len() >= 3 && number_at(p, 1) && i32_value(field(p, 2)) is Some
    } else if et == "T"@ {
        p.len() >= 4 && number_at(p, 2) && number_at(p, 3)
    } else {
        false
    }
}

/// `c` is the command that the split line `p`, of type `et`, gives (with no
/// inner commands yet).
pub open spec fn command_matches(c: Command, p: Seq<Seq<char>>, et: Seq<char>) -> bool {
    match c {
        Command::FadeCommand(x) => et == "F"@ && x.easing@ == field(p, 1) && x.start_time@ == field(p, 2)
            && x.end_time@ == field(p, 3) && x.start_opacity@ == field(p, 4) && x.end_opacity@
            == field_or(p, 5, 4),
        Command::ScaleCommand(x) => et == "S"@ && x.easing@ == field(p, 1) && x.start_time@ == field(
            p,
            2,
        ) && x.end_time@ == field(p, 3) && x.start_scale@ == field(p, 4) && x.end_scale@ == field_or(
            p,
            5,
            4,
        ),
        Command::RotateCommand(x) => et == "R"@ && x.easing@ == field(p, 1) && x.start_time@ == field(
            p,
            2,
        ) && x.end_time@ == field(p, 3) && x.start_angle@ == field(p, 4) && x.end_angle@ == field_or(
            p,
            5,
            4,
        ),
        Command::MoveXCommand(x) => et == "MX"@ && x.easing@ == field(p, 1) && x.start_time@ == field(
            p,
            2,
        ) && x.end_time@ == field(p, 3) && x.start_x@ == field(p, 4) && x.end_x@ == field_or(p, 5, 4),
        Command::MoveYCommand(x) => et == "MY"@ && x.easing@ == field(p, 1) && x.start_time@ == field(
            p,
            2,
        ) && x.end_time@ == field(p, 3) && x.start_y@ == field(p, 4) && x.end_y@ == field_or(p, 5, 4),
        Command::MoveCommand(x) => et == "M"@ && x.easing@ == field(p, 1) && x.start_time@ == field(
            p,
            2,
        ) && x.end_time@ == field(p, 3) && x.start_x@ == field(p, 4) && x.start_y@ == field(p, 5)
            && x.end_x@ == field(p, 6) && x.end_y@ == field(p, 7),
        Command::VectorScaleCommand(x) => et == "V"@ && x.easing@ == field(p, 1) && x.start_time@
            == field(p, 2) && x.end_time@ == field(p, 3) && x.start_scale_x@ == field(p, 4)
            && x.start_scale_y@ == field(p, 5) && (if p.len() >= 8 {
            x.end_scale_x@ == field(p, 6) && x.end_scale_y@ == field(p, 7)
        } else {
            x.end_scale_x@ == field(p, 4) && x.end_scale_y@ == field(p, 5)
        }),
        Command::ColourCommand(x) => et == "C"@ && x.easing@ == field(p, 1) && x.start_time@ == field(
            p,
            2,
        ) && x.end_time@ == field(p, 3) && u8_value(field(p, 4)) == Some(x.start_r as int)
            && u8_value(field(p, 5)) == Some(x.start_g as int) && u8_value(field(p, 6)) == Some(
            x.start_b as int,
        ) && (if p.len() >= 10 {
            u8_value(field(p, 7)) == Some(x.end_r as int) && u8_value(field(p, 8)) == Some(
                x.end_g as int,
            ) && u8_value(field(p, 9)) == Some(x.end_b as int)
        } else {
            x.end_r == x.start_r && x.end_g == x.start_g && x.end_b == x.start_b
        }),
        Command::ParameterCommand(x) => et == "P"@ && x.easing@ == field(p, 1) && x.start_time@
            == field(p, 2) && x.end_time@ == field(p, 3) && parameter_of(
            trim_char(field(p, 4), '"'),
        ) == Some(x.parameter),
        Command::LoopCommand(x) => et == "L"@ && x.start_time@ == field(p, 1) && i32_value(
            field(p, 2),
        ) == Some(x.loop_count as int) && x.inner_commands@.len() == 0,
        Command::TriggerCommand(x) => et == "T"@ && x.trigger_type@ == trim_char(field(p, 1), '"')
            && x.start_time@ == field(p, 2) && x.end_time@ == field(p, 3)
            && x.inner_commands@.len() == 0,
    }
}

/// `e` is the event that the split line `p`, of type `et`, gives (with no
/// commands yet).
pub open spec fn event_matches(e: Event, p: Seq<Seq<char>>, et: Seq<char>) -> bool {
    match e {
        Event::Background(x) => et == "0"@ && x.start_time@ == field(p, 1) && x.file_path@ == field(
            p,
            2,
        ) && x.x@ == field(p, 3) && x.y@ == field(p, 4),
        Event::Video(x) => (et == "1"@ || et == "Video"@) && x.start_time@ == field(p, 1)
            && x.file_path@ == field(p, 2) && x.x@ == field(p, 3) && x.y@ == field(p, 4),
        Event::Break(x) => (et == "2"@ || et == "Break"@) && x.start_time@ == field(p, 1)
            && x.end_time@ == field(p, 2),
        Event::Sprite(x) => et == "Sprite"@ && x.layer@ == field(p, 1) && x.origin@ == field(p, 2)
            && x.file_path@ == field(p, 3) && x.x@ == field(p, 4) && x.y@ == field(p, 5)
            && x.commands@.len() == 0,
        Event::Animation(x) => et == "Animation"@ && x.layer@ == field(p, 1) && x.origin@ == field(
            p,
            2,
        ) && x.file_path@ == field(p, 3) && x.x@ == field(p, 4) && x.y@ == field(p, 5)
            && x.frame_count@ == field(p, 6) && x.frame_delay@ == field(p, 7) && x.loop_type@
            == field(p, 8) && x.commands@.len() == 0,
    }
}

/// `el` is what the content line `l` gives.
pub open spec fn event_line_matches(el: EventLine, l: Seq<char>) -> bool {
    let p = split(l, ',');
    &&& event_line_ok(l)
    &&& match el {
        EventLine::Event(e) => event_matches(e, p, event_type(p)),
        EventLine::Command(c) => c.tab_count == tab_count(l) && command_matches(
            c.command,
            p,
            event_type(p),
        ),
    }
}

/// The letters of the event and command type names.
pub(crate) proof fn lemma_type_names()
    ensures
        "0"@.len() == 1,
        "0"@[0] == '0',
        "1"@.len() == 1,
        "1"@[0] == '1',
        "2"@.len() == 1,
        "2"@[0] == '2',
        "Video"@.len() == 5,
        "Video"@[0] == 'V',
        "Video"@[1] == 'i',
        "Break"@.len() == 5,
        "Break"@[0] == 'B',
        "Break"@[1] == 'r',
        "Sprite"@.len() == 6,
        "Sprite"@[0] == 'S',
        "Sprite"@[1] == 'p',
        "Animation"@.len() == 9,
        "Animation"@[0] == 'A',
        "Animation"@[1] == 'n',
        "F"@.len() == 1,
        "F"@[0] == 'F',
        "S"@.len() == 1,
        "S"@[0] == 'S',
        "R"@.len() == 1,
        "R"@[0] == 'R',
        "M"@.len() == 1,
        "M"@[0] == 'M',
        "MX"@.len() == 2,
        "MX"@[0] == 'M',
        "MX"@[1] == 'X',
        "MY"@.len() == 2,
        "MY"@[0] == 'M',
        "MY"@[1] == 'Y',
        "V"@.len() == 1,
        "V"@[0] == 'V',
        "C"@.len() == 1,
        "C"@[0] == 'C',
        "P"@.len() == 1,
        "P"@[0] == 'P',
        "L"@.len() == 1,
        "L"@[0] == 'L',
        "T"@.len() == 1,
        "T"@[0] == 'T',
        "H"@.len() == 1,
        "H"@[0] == 'H',
        "A"@.len() == 1,
        "A"@[0] == 'A',
{
    reveal_strlit("0");
    reveal_strlit("1");
    reveal_strlit("2");
    reveal_strlit("Video");
    reveal_strlit("Break");
    reveal_strlit("Sprite");
    reveal_strlit("Animation");
    reveal_strlit("F");
    reveal_strlit("S");
    reveal_strlit("R");
    reveal_strlit("M");
    reveal_strlit("MX");
    reveal_strlit("MY");
    reveal_strlit("V");
    reveal_strlit("C");
    reveal_strlit("P");
    reveal_strlit("L");
    reveal_strlit("T");
    reveal_strlit("H");
    reveal_strlit("A");
}

fn text_is(v: &Vec<char>, s: &str) -> (r: bool)
    ensures
        r == (v@ == s@),
{
    same_text(v, &chars_of(s))
}

fn field_str(p: &Vec<Vec<char>>, i: usize) -> (r: String)
    requires
        i < p.len(),
    ensures
        r@ == field(views(p@), i as int),
{
    string_of(&field_vec(p, i))
}

fn field_or_str(p: &Vec<Vec<char>>, i: usize, d: usize) -> (r: String)
    requires
        d < p.len(),
    ensures
        r@ == field_or(views(p@), i as int, d as int),
{
    if p.len() > i {
        field_str(p, i)
    } else {
        field_str(p, d)
    }
}

/// Whether fields `a..b` of a split line all read as numbers.
fn numbers_in(p: &Vec<Vec<char>>, a: usize, b: usize) -> (r: bool)
    requires
        a <= b <= p.len(),
    ensures
        r == forall|i: int| a <= i < b ==> number_at(views(p@), i),
{
    let mut i = a;
    while i < b
        invariant
            a <= i <= b <= p.len(),
            forall|k: int| a <= k < i ==> number_at(views(p@), k),
        decreases b - i,
    {
        if !float_field(p, i) {
            assert(!number_at(views(p@), i as int));
            return false;
        }
        i += 1;
    }
    true
}

/// Whether field `i` is absent or reads as a number.
fn optional_number(p: &Vec<Vec<char>>, i: usize) -> (r: bool)
    ensures
        r == (p.len() > i ==> number_at(views(p@), i as int)),
{
    p.len() <= i || float_field(p, i)
}

fn u8_field(p: &Vec<Vec<char>>, i: usize) -> (r: Option<u8>)
    requires
        i < p.len(),
    ensures
        r matches Some(x) ==> u8_value(field(views(p@), i as int)) == Some(x as int),
        r is None ==> u8_value(field(views(p@), i as int)) is None,
{
    match int_field(p, i, 0, 255) {
        Some(v) => Some(v as u8),
        None => None,
    }
}

fn parse_command(p: &Vec<Vec<char>>, et: &Vec<char>) -> (r: Option<Command>)
    requires
        p.len() >= 2,
        et@ != "0"@ && et@ != "1"@ && et@ != "Video"@ && et@ != "2"@ && et@ != "Break"@ && et@
            != "Sprite"@ && et@ != "Animation"@,
    ensures
        r is Some <==> event_line_ok_parts(views(p@), et@),
        r matches Some(c) ==> command_matches(c, views(p@), et@),
{
    proof {
        lemma_type_names();
    }
    if text_is(et, "F") {
        if p.len() < 5 || !numbers_in(p, 2, 5) || !optional_number(p, 5) {
            return None;
        }
        Some(
            Command::FadeCommand(
                FadeCommand {
                    easing: field_str(p, 1),
                    start_time: field_str(p, 2),
                    end_time: field_str(p, 3),
                    start_opacity: field_str(p, 4),
                    end_opacity: field_or_str(p, 5, 4),
                },
            ),
        )
    } else if text_is(et, "S") {
        if p.len() < 5 || !numbers_in(p, 2, 5) || !optional_number(p, 5) {
            return None;
        }
        Some(
            Command::ScaleCommand(
                ScaleCommand {
                    easing: field_str(p, 1),
                    start_time: field_str(p, 2),
                    end_time: field_str(p, 3),
                    start_scale: field_str(p, 4),
                    end_scale: field_or_str(p, 5, 4),
                },
            ),
        )
    } else if text_is(et, "M") {
        if p.len() < 8 || !numbers_in(p, 2, 8) {
            return None;
        }
        Some(
            Command::MoveCommand(
                MoveCommand {
                    easing: field_str(p, 1),
                    start_time: field_str(p, 2),
                    end_time: field_str(p, 3),
                    start_x: field_str(p, 4),
                    start_y: field_str(p, 5),
                    end_x: field_str(p, 6),
                    end_y: field_str(p, 7),
                },
            ),
        )
    } else if text_is(et, "MX") {
        if p.len() < 5 || !numbers_in(p, 2, 5) || !optional_number(p, 5) {
            return None;
        }
        Some(
            Command::MoveXCommand(
                MoveXCommand {
                    easing: field_str(p, 1),
                    start_time: field_str(p, 2),
                    end_time: field_str(p, 3),
                    start_x: field_str(p, 4),
                    end_x: field_or_str(p, 5, 4),
                },
            ),
        )
    } else if text_is(et, "MY") {
        if p.len() < 5 || !numbers_in(p, 2, 5) || !optional_number(p, 5) {
            return None;
        }
        Some(
            Command::MoveYCommand(
                MoveYCommand {
                    easing: field_str(p, 1),
                    start_time: field_str(p, 2),
                    end_time: field_str(p, 3),
                    start_y: field_str(p, 4),
                    end_y: field_or_str(p, 5, 4),
                },
            ),
        )
    } else if text_is(et, "V") {
        if p.len() < 6 || !numbers_in(p, 2, 6) || (p.len() >= 8 && !numbers_in(p, 6, 8)) {
            return None;
        }
        let (end_scale_x, end_scale_y) = if p.len() >= 8 {
            (field_str(p, 6), field_str(p, 7))
        } else {
            (field_str(p, 4), field_str(p, 5))
        };
        Some(
            Command::VectorScaleCommand(
                VectorScaleCommand {
                    easing: field_str(p, 1),
                    start_time: field_str(p, 2),
                    end_time: field_str(p, 3),
                    start_scale_x: field_str(p, 4),
                    start_scale_y: field_str(p, 5),
                    end_scale_x,
                    end_scale_y,
                },
            ),
        )
    } else if text_is(et, "R") {
        if p.len() < 5 || !numbers_in(p, 2, 5) || !optional_number(p, 5) {
            return None;
        }
        Some(
            Command::RotateCommand(
                RotateCommand {
                    easing: field_str(p, 1),
                    start_time: field_str(p, 2),
                    end_time: field_str(p, 3),
                    start_angle: field_str(p, 4),
                    end_angle: field_or_str(p, 5, 4),
                },
            ),
        )
    } else if text_is(et, "C") {
        if p.len() < 7 || !numbers_in(p, 2, 4) {
            return None;
        }
        let start_r = match u8_field(p, 4) {
            Some(v) => v,
            None => return None,
        };
        let start_g = match u8_field(p, 5) {
            Some(v) => v,
            None => return None,
        };
        let start_b = match u8_field(p, 6) {
            Some(v) => v,
            None => return None,
        };
        let (end_r, end_g, end_b) = if p.len() >= 10 {
            let er = match u8_field(p, 7) {
                Some(v) => v,
                None => return None,
            };
            let eg = match u8_field(p, 8) {
                Some(v) => v,
                None => return None,
            };
            let eb = match u8_field(p, 9) {
                Some(v) => v,
                None => return None,
            };
            (er, eg, eb)
        } else {
            (start_r, start_g, start_b)
        };
        Some(
            Command::ColourCommand(
                ColourCommand {
                    easing: field_str(p, 1),
                    start_time: field_str(p, 2),
                    end_time: field_str(p, 3),
                    start_r,
                    start_g,
                    start_b,
                    end_r,
                    end_g,
                    end_b,
                },
            ),
        )
    } else if text_is(et, "P") {
        if p.len() < 5 || !numbers_in(p, 2, 4) {
            return None;
        }
        let name = trim_char_vec(&field_vec(p, 4), '"');
        let parameter = if text_is(&name, "H") {
            Parameter::FlipH
        } else if text_is(&name, "V") {
            Parameter::FlipV
        } else if text_is(&name, "A") {
            Parameter::AdditiveBlend
        } else {
            return None;
        };
        Some(
            Command::ParameterCommand(
                ParameterCommand {
                    easing: field_str(p, 1),
                    start_time: field_str(p, 2),
                    end_time: field_str(p, 3),
                    parameter,
                },
            ),
        )
    } else if text_is(et, "L") {
        if p.len() < 3 || !float_field(p, 1) {
            return None;
        }
        let loop_count = match int_field(p, 2, i32::MIN as i128, i32::MAX as i128) {
            Some(v) => v as i32,
            None => return None,
        };
        Some(
            Command::LoopCommand(
                LoopCommand { start_time: field_str(p, 1), loop_count, inner_commands: Vec::new() },
            ),
        )
    } else if text_is(et, "T") {
        if p.len() < 4 || !numbers_in(p, 2, 4) {
            return None;
        }
        Some(
            Command::TriggerCommand(
                TriggerCommand {
                    trigger_type: string_of(&trim_char_vec(&field_vec(p, 1), '"')),
                    start_time: field_str(p, 2),
                    end_time: field_str(p, 3),
                    inner_commands: Vec::new(),
                },
            ),
        )
    } else {
        None
    }
}

fn parse_event(p: &Vec<Vec<char>>, et: &Vec<char>) -> (r: Option<Event>)
    requires
        p.len() >= 2,
        et@ == "0"@ || et@ == "1"@ || et@ == "Video"@ || et@ == "2"@ || et@ == "Break"@ || et@
            == "Sprite"@ || et@ == "Animation"@,
    ensures
        r is Some <==> event_line_ok_parts(views(p@), et@),
        r matches Some(e) ==> event_matches(e, views(p@), et@),
{
    proof {
        lemma_type_names();
    }
    if text_is(et, "0") {
        if p.len() < 5 || !float_field(p, 1) || !numbers_in(p, 3, 5) {
            return None;
        }
        Some(
            Event::Background(
                BackgroundEvent {
                    start_time: field_str(p, 1),
                    file_path: field_str(p, 2),
                    x: field_str(p, 3),
                    y: field_str(p, 4),
                },
            ),
        )
    } else if text_is(et, "1") || text_is(et, "Video") {
        if p.len() < 5 || !float_field(p, 1) || !numbers_in(p, 3, 5) {
            return None;
        }
        Some(
            Event::Video(
                VideoEvent {
                    start_time: field_str(p, 1),
                    file_path: field_str(p, 2),
                    x: field_str(p, 3),
                    y: field_str(p, 4),
                },
            ),
        )
    } else if text_is(et, "2") || text_is(et, "Break") {
        if p.len() < 3 || !numbers_in(p, 1, 3) {
            return None;
        }
        Some(Event::Break(BreakEvent { start_time: field_str(p, 1), end_time: field_str(p, 2) }))
    } else if text_is(et, "Sprite") {
        if p.len() < 6 || !numbers_in(p, 4, 6) {
            return None;
        }
        Some(
            Event::Sprite(
                Sprite {
                    layer: field_str(p, 1),
                    origin: field_str(p, 2),
                    file_path: field_str(p, 3),
                    x: field_str(p, 4),
                    y: field_str(p, 5),
                    commands: Vec::new(),
                },
            ),
        )
    } else {
        if p.len() < 9 || !numbers_in(p, 4, 8) {
            return None;
        }
        Some(
            Event::Animation(
                Animation {
                    layer: field_str(p, 1),
                    origin: field_str(p, 2),
                    file_path: field_str(p, 3),
                    x: field_str(p, 4),
                    y: field_str(p, 5),
                    frame_count: field_str(p, 6),
                    frame_delay: field_str(p, 7),
                    loop_type: field_str(p, 8),
                    commands: Vec::new(),
                },
            ),
        )
    }
}

/// Reads one content line of the section (comment removed, trailing
/// whitespace trimmed, not empty).
pub fn parse_event_line(l: &Vec<char>) -> (r: Option<EventLine>)
    ensures
        r is Some <==> event_line_ok(l@),
        r matches Some(el) ==> event_line_matches(el, l@),
{
    let p = split_vec(l, ',');
    if p.len() < 2 {
        return None;
    }
    let lead = lead_in_vec(&p[0], ' ', '_');
    let et = sub_vec(&p[0], lead, p[0].len());
    assert(et@ =~= event_type(views(p@)));
    let tabs = lead_in_vec(l, ' ', '_') as i32;
    if text_is(&et, "0") || text_is(&et, "1") || text_is(&et, "Video") || text_is(&et, "2")
        || text_is(&et, "Break") || text_is(&et, "Sprite") || text_is(&et, "Animation") {
        match parse_event(&p, &et) {
            Some(e) => Some(EventLine::Event(e)),
            None => None,
        }
    } else {
        match parse_command(&p, &et) {
            Some(c) => Some(EventLine::Command(CommandLineWithTab { tab_count: tabs, command: c })),
            None => None,
        }
    }
}

/// The command of a command line (anything, for an event line).
pub open spec fn line_command(el: EventLine) -> CommandLineWithTab {
    match el {
        EventLine::Command(c) => c,
        EventLine::Event(_) => arbitrary(),
    }
}

/// The command lines of `els`.
pub open spec fn command_lines(els: Seq<EventLine>) -> Seq<CommandLineWithTab> {
    els.map_values(|el: EventLine| line_command(el))
}

/// The end of the block of a command with indentation `t`: the first index
/// from `j` on whose line is not indented deeper than `t`.
pub open spec fn run_end(f: Seq<CommandLineWithTab>, t: i32, j: int) -> int
    decreases f.len() - j,
{
    if j >= f.len() {
        f.len() as int
    } else if f[j].tab_count > t {
        run_end(f, t, j + 1)
    } else {
        j
    }
}

pub proof fn lemma_run_end_props(f: Seq<CommandLineWithTab>, t: i32, j: int)
    requires
        0 <= j <= f.len(),
    ensures
        j <= run_end(f, t, j) <= f.len(),
        forall|m: int| j <= m < run_end(f, t, j) ==> #[trigger] f[m].tab_count > t,
        run_end(f, t, j) < f.len() ==> f[run_end(f, t, j)].tab_count <= t,
    decreases f.len() - j,
{
    if j < f.len() && f[j].tab_count > t {
        lemma_run_end_props(f, t, j + 1);
    }
}

pub proof fn lemma_run_end_char(f: Seq<CommandLineWithTab>, t: i32, j: int, e: int)
    requires
        0 <= j <= e <= f.len(),
        forall|m: int| j <= m < e ==> #[trigger] f[m].tab_count > t,
        e < f.len() ==> f[e].tab_count <= t,
    ensures
        run_end(f, t, j) == e,
    decreases f.len() - j,
{
    if j < e {
        lemma_run_end_char(f, t, j + 1, e);
    }
}

/// `a` is a copy of the command line head `b` (its inner commands aside).
pub open spec fn same_head(a: Command, b: Command) -> bool {
    match (a, b) {
        (Command::LoopCommand(x), Command::LoopCommand(y)) => x.start_time == y.start_time
            && x.loop_count == y.loop_count,
        (Command::TriggerCommand(x), Command::TriggerCommand(y)) => x.trigger_type
            == y.trigger_type && x.start_time == y.start_time && x.end_time == y.end_time,
        (Command::LoopCommand(_), _) => false,
        (Command::TriggerCommand(_), _) => false,
        (_, Command::LoopCommand(_)) => false,
        (_, Command::TriggerCommand(_)) => false,
        _ => a == b,
    }
}

/// `cmds` is the nesting of the command lines `f`: each command takes the
/// deeper-indented lines after it as its block; a loop or trigger holds its
/// block as inner commands, any other command drops it.
pub open spec fn commands_match(cmds: Seq<Command>, f: Seq<CommandLineWithTab>) -> bool
    decreases f.len(),
{
    if f.len() == 0 {
        cmds.len() == 0
    } else {
        let j = run_end(f, f[0].tab_count, 1);
        if 1 <= j <= f.len() {
            &&& cmds.len() >= 1
            &&& same_head(cmds[0], f[0].command)
            &&& match cmds[0] {
                Command::LoopCommand(l) => commands_match(l.inner_commands@, f.subrange(1, j)),
                Command::TriggerCommand(tc) => commands_match(tc.inner_commands@, f.subrange(1, j)),
                _ => true,
            }
            &&& commands_match(cmds.skip(1), f.skip(j))
        } else {
            false
        }
    }
}

/// Blocks followed by lines indented no deeper than all of them nest as the
/// two parts did apart.
pub proof fn lemma_commands_concat(
    a: Seq<Command>,
    b: Seq<Command>,
    f1: Seq<CommandLineWithTab>,
    f2: Seq<CommandLineWithTab>,
)
    requires
        commands_match(a, f1),
        commands_match(b, f2),
        f2.len() > 0 ==> forall|k: int| 0 <= k < f1.len() ==> f2[0].tab_count <= #[trigger] f1[k].tab_count,
    ensures
        commands_match(a + b, f1 + f2),
    decreases f1.len(),
{
    if f1.len() == 0 {
        assert(a + b =~= b);
        assert(f1 + f2 =~= f2);
    } else {
        let t = f1[0].tab_count;
        let j = run_end(f1, t, 1);
        let ff = f1 + f2;
        lemma_run_end_props(f1, t, 1);
        assert forall|m: int| 1 <= m < j implies #[trigger] ff[m].tab_count > t by {
            assert(ff[m] == f1[m]);
        }
        if j < ff.len() {
            if j < f1.len() {
                assert(ff[j] == f1[j]);
            } else {
                assert(ff[j] == f2[0]);
            }
        }
        lemma_run_end_char(ff, t, 1, j);
        assert(ff.subrange(1, j) =~= f1.subrange(1, j));
        assert(ff.skip(j) =~= f1.skip(j) + f2);
        assert((a + b).skip(1) =~= a.skip(1) + b);
        assert((a + b)[0] == a[0]);
        let g = f1.skip(j);
        assert forall|k: int| f2.len() > 0 && 0 <= k < g.len() implies f2[0].tab_count <= #[trigger] g[k].tab_count by {
            assert(g[k] == f1[k + j]);
        }
        lemma_commands_concat(a.skip(1), b, g, f2);
    }
}

/// A command with the lines of its block.
pub proof fn lemma_commands_single(c: Command, f: Seq<CommandLineWithTab>)
    requires
        f.len() >= 1,
        forall|m: int| 1 <= m < f.len() ==> #[trigger] f[m].tab_count > f[0].tab_count,
        same_head(c, f[0].command),
        match c {
            Command::LoopCommand(l) => commands_match(l.inner_commands@, f.skip(1)),
            Command::TriggerCommand(tc) => commands_match(tc.inner_commands@, f.skip(1)),
            _ => true,
        },
    ensures
        commands_match(seq![c], f),
{
    assert(seq![c][0] == c);
    lemma_run_end_char(f, f[0].tab_count, 1, f.len() as int);
    assert(f.subrange(1, f.len() as int) =~= f.skip(1));
    assert(seq![c].skip(1) =~= Seq::<Command>::empty());
    assert(f.skip(f.len() as int) =~= Seq::<CommandLineWithTab>::empty());
    assert(commands_match(Seq::<Command>::empty(), Seq::<CommandLineWithTab>::empty()));
    let j = run_end(f, f[0].tab_count, 1);
    assert(j == f.len());
    assert(match seq![c][0] {
        Command::LoopCommand(l) => commands_match(l.inner_commands@, f.subrange(1, j)),
        Command::TriggerCommand(tc) => commands_match(tc.inner_commands@, f.subrange(1, j)),
        _ => true,
    });
}

fn tab_at(els: &Vec<EventLine>, k: usize) -> (r: i32)
    requires
        k < els.len(),
        els@[k as int] is Command,
    ensures
        r == line_command(els@[k as int]).tab_count,
{
    match &els[k] {
        EventLine::Command(c) => c.tab_count,
        EventLine::Event(_) => 0,
    }
}

fn copy_str(s: &String) -> (r: String)
    ensures
        r == *s,
{
    s.clone()
}

/// A copy of a command line's head, holding `inner` where it is a loop or
/// trigger.
fn build_command(c: &Command, inner: Vec<Command>) -> (r: Command)
    ensures
        same_head(r, *c),
        r matches Command::LoopCommand(l) ==> l.inner_commands == inner,
        r matches Command::TriggerCommand(tc) ==> tc.inner_commands == inner,
{
    match c {
        Command::FadeCommand(x) => Command::FadeCommand(
            FadeCommand {
                easing: copy_str(&x.easing),
                start_time: copy_str(&x.start_time),
                end_time: copy_str(&x.end_time),
                start_opacity: copy_str(&x.start_opacity),
                end_opacity: copy_str(&x.end_opacity),
            },
        ),
        Command::MoveCommand(x) => Command::MoveCommand(
            MoveCommand {
                easing: copy_str(&x.easing),
                start_time: copy_str(&x.start_time),
                end_time: copy_str(&x.end_time),
                start_x: copy_str(&x.start_x),
                start_y: copy_str(&x.start_y),
                end_x: copy_str(&x.end_x),
                end_y: copy_str(&x.end_y),
            },
        ),
        Command::MoveXCommand(x) => Command::MoveXCommand(
            MoveXCommand {
                easing: copy_str(&x.easing),
                start_time: copy_str(&x.start_time),
                end_time: copy_str(&x.end_time),
                start_x: copy_str(&x.start_x),
                end_x: copy_str(&x.end_x),
            },
        ),
        Command::MoveYCommand(x) => Command::MoveYCommand(
            MoveYCommand {
                easing: copy_str(&x.easing),
                start_time: copy_str(&x.start_time),
                end_time: copy_str(&x.end_time),
                start_y: copy_str(&x.start_y),
                end_y: copy_str(&x.end_y),
            },
        ),
        Command::ScaleCommand(x) => Command::ScaleCommand(
            ScaleCommand {
                easing: copy_str(&x.easing),
                start_time: copy_str(&x.start_time),
                end_time: copy_str(&x.end_time),
                start_scale: copy_str(&x.start_scale),
                end_scale: copy_str(&x.end_scale),
            },
        ),
        Command::VectorScaleCommand(x) => Command::VectorScaleCommand(
            VectorScaleCommand {
                easing: copy_str(&x.easing),
                start_time: copy_str(&x.start_time),
                end_time: copy_str(&x.end_time),
                start_scale_x: copy_str(&x.start_scale_x),
                start_scale_y: copy_str(&x.start_scale_y),
                end_scale_x: copy_str(&x.end_scale_x),
                end_scale_y: copy_str(&x.end_scale_y),
            },
        ),
        Command::RotateCommand(x) => Command::RotateCommand(
            RotateCommand {
                easing: copy_str(&x.easing),
                start_time: copy_str(&x.start_time),
                end_time: copy_str(&x.end_time),
                start_angle: copy_str(&x.start_angle),
                end_angle: copy_str(&x.end_angle),
            },
        ),
        Command::ColourCommand(x) => Command::ColourCommand(
            ColourCommand {
                easing: copy_str(&x.easing),
                start_time: copy_str(&x.start_time),
                end_time: copy_str(&x.end_time),
                start_r: x.start_r,
                start_g: x.start_g,
                start_b: x.start_b,
                end_r: x.end_r,
                end_g: x.end_g,
                end_b: x.end_b,
            },
        ),
        Command::ParameterCommand(x) => Command::ParameterCommand(
            ParameterCommand {
                easing: copy_str(&x.easing),
                start_time: copy_str(&x.start_time),
                end_time: copy_str(&x.end_time),
                parameter: x.parameter,
            },
        ),
        Command::LoopCommand(x) => Command::LoopCommand(
            LoopCommand {
                start_time: copy_str(&x.start_time),
                loop_count: x.loop_count,
                inner_commands: inner,
            },
        ),
        Command::TriggerCommand(x) => Command::TriggerCommand(
            TriggerCommand {
                trigger_type: copy_str(&x.trigger_type),
                start_time: copy_str(&x.start_time),
                end_time: copy_str(&x.end_time),
                inner_commands: inner,
            },
        ),
    }
}

/// Nests the command lines `els[lo..hi]`.
fn collect_commands(els: &Vec<EventLine>, lo: usize, hi: usize) -> (r: Vec<Command>)
    requires
        lo <= hi <= els.len(),
        forall|k: int| lo <= k < hi ==> #[trigger] els@[k] is Command,
    ensures
        commands_match(r@, command_lines(els@.subrange(lo as int, hi as int))),
    decreases hi - lo,
{
    let ghost f = command_lines(els@);
    let mut out: Vec<Command> = Vec::new();
    let mut i = lo;
    assert(command_lines(els@.subrange(lo as int, lo as int)) =~= Seq::<CommandLineWithTab>::empty());
    while i < hi
        invariant
            lo <= i <= hi <= els.len(),
            f == command_lines(els@),
            forall|k: int| lo <= k < hi ==> #[trigger] els@[k] is Command,
            commands_match(out@, command_lines(els@.subrange(lo as int, i as int))),
            i < hi ==> forall|k: int| lo <= k < i ==> f[i as int].tab_count <= #[trigger] f[k].tab_count,
        decreases hi - i,
    {
        let t = tab_at(els, i);
        let mut j = i + 1;
        while j < hi && tab_at(els, j) > t
            invariant
                lo <= i < j <= hi <= els.len(),
                f == command_lines(els@),
                forall|k: int| lo <= k < hi ==> #[trigger] els@[k] is Command,
                t == f[i as int].tab_count,
                forall|m: int| i < m < j ==> #[trigger] f[m].tab_count > t,
            decreases hi - j,
        {
            j += 1;
        }
        let inner = collect_commands(els, i + 1, j);
        let head = match &els[i] {
            EventLine::Command(c) => &c.command,
            EventLine::Event(_) => {
                assert(false);
                return out;
            },
        };
        let ghost inner_view = inner@;
        let c = build_command(head, inner);
        proof {
            let blk = command_lines(els@.subrange(i as int, j as int));
            assert(blk.skip(1) =~= command_lines(els@.subrange(i + 1, j as int)));
            assert forall|m: int| 1 <= m < blk.len() implies #[trigger] blk[m].tab_count > blk[0].tab_count by {
                assert(blk[m] == f[i + m]);
            }
            lemma_commands_single(c, blk);
            let before = command_lines(els@.subrange(lo as int, i as int));
            assert forall|k: int| 0 <= k < before.len() implies blk[0].tab_count <= #[trigger] before[k].tab_count by {
                assert(before[k] == f[lo + k]);
            }
            lemma_commands_concat(out@, seq![c], before, blk);
            assert(before + blk =~= command_lines(els@.subrange(lo as int, j as int)));
        }
        let ghost prev = out@;
        out.push(c);
        assert(out@ =~= prev + seq![c]);
        proof {
            assert forall|k: int| j < hi && lo <= k < j implies f[j as int].tab_count <= #[trigger] f[k].tab_count by {
                if k > i {
                    assert(f[k].tab_count > t);
                }
            }
        }
        i = j;
    }
    out
}

/// The content lines of the section: each line without its comment and
/// trailing whitespace, the empty ones left out.
pub open spec fn event_contents(ls: Seq<Seq<char>>) -> Seq<Seq<char>>
    decreases ls.len(),
{
    if ls.len() == 0 {
        seq![]
    } else {
        let prev = event_contents(ls.drop_last());
        let c = event_content(ls.last());
        if c.len() > 0 {
            prev.push(c)
        } else {
            prev
        }
    }
}

pub proof fn lemma_event_contents_prefix(ls: Seq<Seq<char>>, i: int)
    requires
        0 <= i <= ls.len(),
    ensures
        event_contents(ls.take(i)).len() <= event_contents(ls).len(),
        forall|j: int|
            0 <= j < event_contents(ls.take(i)).len() ==> #[trigger] event_contents(ls.take(i))[j]
                == event_contents(ls)[j],
    decreases ls.len() - i,
{
    if i == ls.len() {
        assert(ls.take(i) =~= ls);
    } else {
        lemma_event_contents_prefix(ls, i + 1);
        let a = ls.take(i);
        let b = ls.take(i + 1);
        assert(b.drop_last() =~= a);
        assert forall|j: int| 0 <= j < event_contents(a).len() implies #[trigger] event_contents(
            a,
        )[j] == event_contents(ls)[j] by {
            assert(event_contents(a)[j] == event_contents(b)[j]);
        }
    }
}

/// Every content line of the section is valid.
pub open spec fn events_section_ok(section: Seq<char>) -> bool {
    let cs = event_contents(lines(section));
    forall|i: int| 0 <= i < cs.len() ==> event_line_ok(#[trigger] cs[i])
}

/// One parsed line for each content line.
pub open spec fn event_lines_match(els: Seq<EventLine>, cs: Seq<Seq<char>>) -> bool {
    &&& els.len() == cs.len()
    &&& forall|i: int| 0 <= i < cs.len() ==> event_line_matches(#[trigger] els[i], cs[i])
}

/// The positions of the event lines.
pub open spec fn event_indices(els: Seq<EventLine>) -> Seq<int>
    decreases els.len(),
{
    if els.len() == 0 {
        seq![]
    } else {
        let prev = event_indices(els.drop_last());
        if els.last() is Event {
            prev.push(els.len() - 1)
        } else {
            prev
        }
    }
}

/// Where the lines of event `q` end: at the next event, or at the end.
pub open spec fn next_index(idx: Seq<int>, q: int, n: int) -> int {
    if q + 1 < idx.len() {
        idx[q + 1]
    } else {
        n
    }
}

/// `e` is the event `h` with the command lines `f` nested under it (kept by
/// sprites and animations, dropped by the other events).
pub open spec fn event_built(e: Event, h: Event, f: Seq<CommandLineWithTab>) -> bool {
    match (e, h) {
        (Event::Background(x), Event::Background(y)) => x == y,
        (Event::Video(x), Event::Video(y)) => x == y,
        (Event::Break(x), Event::Break(y)) => x == y,
        (Event::Sprite(x), Event::Sprite(y)) => x.layer == y.layer && x.origin == y.origin
            && x.file_path == y.file_path && x.x == y.x && x.y == y.y && commands_match(
            x.commands@,
            f,
        ),
        (Event::Animation(x), Event::Animation(y)) => x.layer == y.layer && x.origin == y.origin
            && x.file_path == y.file_path && x.x == y.x && x.y == y.y && x.frame_count
            == y.frame_count && x.frame_delay == y.frame_delay && x.loop_type == y.loop_type
            && commands_match(x.commands@, f),
        _ => false,
    }
}

/// `evs` holds one event per event line, each with the command lines up to the
/// next event line; command lines before the first event are dropped.
pub open spec fn events_match(evs: Seq<Event>, els: Seq<EventLine>) -> bool {
    let idx = event_indices(els);
    &&& evs.len() == idx.len()
    &&& forall|q: int|
        0 <= q < idx.len() ==> (els[idx[q]] matches EventLine::Event(h) && event_built(
            #[trigger] evs[q],
            h,
            command_lines(els.subrange(idx[q] + 1, next_index(idx, q, els.len() as int))),
        ))
}

pub proof fn lemma_event_indices(els: Seq<EventLine>)
    ensures
        forall|q: int|
            0 <= q < event_indices(els).len() ==> 0 <= #[trigger] event_indices(els)[q] < els.len()
                && els[event_indices(els)[q]] is Event,
        forall|q: int, k: int|
            #![trigger event_indices(els)[q], els[k]]
            0 <= q < event_indices(els).len() && event_indices(els)[q] < k < next_index(
                event_indices(els),
                q,
                els.len() as int,
            ) ==> els[k] is Command,
        forall|q: int|
            0 <= q < event_indices(els).len() ==> #[trigger] event_indices(els)[q] < next_index(
                event_indices(els),
                q,
                els.len() as int,
            ) <= els.len(),
    decreases els.len(),
{
    if els.len() > 0 {
        let prev_els = els.drop_last();
        lemma_event_indices(prev_els);
        let prev = event_indices(prev_els);
        let idx = event_indices(els);
        let n = els.len() as int;
        assert forall|q: int| 0 <= q < idx.len() implies 0 <= #[trigger] idx[q] < n
            && els[idx[q]] is Event by {
            if q < prev.len() {
                assert(idx[q] == prev[q]);
                assert(els[idx[q]] == prev_els[idx[q]]);
            }
        }
        assert forall|q: int, k: int|
            #![trigger idx[q], els[k]]
            0 <= q < idx.len() && idx[q] < k < next_index(idx, q, n) implies els[k] is Command by {
            {
                if q < prev.len() {
                    assert(idx[q] == prev[q]);
                    if q + 1 < prev.len() {
                        assert(idx[q + 1] == prev[q + 1]);
                        assert(els[k] == prev_els[k]);
                    } else if q + 1 < idx.len() {
                        assert(idx[q + 1] == n - 1);
                        assert(els[k] == prev_els[k]);
                    } else {
                        if k < n - 1 {
                            assert(els[k] == prev_els[k]);
                        } else {
                            assert(!(els.last() is Event));
                        }
                    }
                }
            }
        }
        assert forall|q: int| 0 <= q < idx.len() implies #[trigger] idx[q] < next_index(idx, q, n) <= n by {
            if q < prev.len() {
                assert(idx[q] == prev[q]);
                if q + 1 < prev.len() {
                    assert(idx[q + 1] == prev[q + 1]);
                }
            }
        }
    }
}

fn event_content_vec(line: &Vec<char>) -> (r: Vec<char>)
    ensures
        r@ == event_content(line@),
{
    let slashes = chars_of("//");
    match find_vec(line, &slashes) {
        Some(i) => {
            proof {
                crate::text::lemma_find_props(line@, slashes@);
            }
            trim_end_vec(line, i)
        },
        None => {
            assert(line@.take(line@.len() as int) =~= line@);
            trim_end_vec(line, line.len())
        },
    }
}

/// Copies the header of an event line, with `commands` as its commands.
fn build_event(h: &Event, commands: Vec<Command>) -> (r: Event)
    ensures
        match (r, *h) {
            (Event::Sprite(x), Event::Sprite(y)) => x.layer == y.layer && x.origin == y.origin
                && x.file_path == y.file_path && x.x == y.x && x.y == y.y && x.commands == commands,
            (Event::Animation(x), Event::Animation(y)) => x.layer == y.layer && x.origin == y.origin
                && x.file_path == y.file_path && x.x == y.x && x.y == y.y && x.frame_count
                == y.frame_count && x.frame_delay == y.frame_delay && x.loop_type == y.loop_type
                && x.commands == commands,
            (Event::Background(x), Event::Background(y)) => x == y,
            (Event::Video(x), Event::Video(y)) => x == y,
            (Event::Break(x), Event::Break(y)) => x == y,
            _ => false,
        },
{
    match h {
        Event::Background(x) => Event::Background(
            BackgroundEvent {
                file_path: copy_str(&x.file_path),
                start_time: copy_str(&x.start_time),
                x: copy_str(&x.x),
                y: copy_str(&x.y),
            },
        ),
        Event::Video(x) => Event::Video(
            VideoEvent {
                file_path: copy_str(&x.file_path),
                start_time: copy_str(&x.start_time),
                x: copy_str(&x.x),
                y: copy_str(&x.y),
            },
        ),
        Event::Break(x) => Event::Break(
            BreakEvent { start_time: copy_str(&x.start_time), end_time: copy_str(&x.end_time) },
        ),
        Event::Sprite(x) => Event::Sprite(
            Sprite {
                layer: copy_str(&x.layer),
                origin: copy_str(&x.origin),
                file_path: copy_str(&x.file_path),
                x: copy_str(&x.x),
                y: copy_str(&x.y),
                commands,
            },
        ),
        Event::Animation(x) => Event::Animation(
            Animation {
                layer: copy_str(&x.layer),
                origin: copy_str(&x.origin),
                file_path: copy_str(&x.file_path),
                x: copy_str(&x.x),
                y: copy_str(&x.y),
                frame_count: copy_str(&x.frame_count),
                frame_delay: copy_str(&x.frame_delay),
                loop_type: copy_str(&x.loop_type),
                commands,
            },
        ),
    }
}

fn parse_event_lines(section_text: &str) -> (r: Option<Vec<EventLine>>)
    ensures
        r is Some <==> events_section_ok(section_text@),
        r matches Some(els) ==> event_lines_match(els@, event_contents(lines(section_text@))),
{
    let text = chars_of(section_text);
    let ls = lines_vec(&text);
    let ghost all = views(ls@);
    let mut els: Vec<EventLine> = Vec::new();
    let mut i: usize = 0;
    while i < ls.len()
        invariant
            i <= ls.len(),
            all == views(ls@),
            all == lines(section_text@),
            event_lines_match(els@, event_contents(all.take(i as int))),
        decreases ls.len() - i,
    {
        assert(all.take(i + 1).drop_last() =~= all.take(i as int));
        assert(all.take(i + 1).last() == ls@[i as int]@);
        let content = event_content_vec(&ls[i]);
        if content.len() > 0 {
            match parse_event_line(&content) {
                Some(el) => {
                    els.push(el);
                },
                None => {
                    proof {
                        lemma_event_contents_prefix(all, i + 1);
                        let c = event_contents(all.take(i + 1));
                        assert(c[c.len() - 1] == content@);
                    }
                    return None;
                },
            }
        }
        i += 1;
        assert(event_lines_match(els@, event_contents(all.take(i as int))));
    }
    assert(all.take(ls.len() as int) =~= all);
    proof {
        let cs = event_contents(all);
        assert forall|k: int| 0 <= k < cs.len() implies event_line_ok(#[trigger] cs[k]) by {
            assert(event_line_matches(els@[k], cs[k]));
        }
    }
    Some(els)
}

fn event_positions(els: &Vec<EventLine>) -> (r: Vec<usize>)
    ensures
        r@.map_values(|x: usize| x as int) == event_indices(els@),
{
    let mut idx: Vec<usize> = Vec::new();
    let mut k: usize = 0;
    while k < els.len()
        invariant
            k <= els.len(),
            idx@.map_values(|x: usize| x as int) == event_indices(els@.take(k as int)),
        decreases els.len() - k,
    {
        assert(els@.take(k + 1).drop_last() =~= els@.take(k as int));
        let is_event = match &els[k] {
            EventLine::Event(_) => true,
            EventLine::Command(_) => false,
        };
        if is_event {
            idx.push(k);
        }
        k += 1;
        assert(idx@.map_values(|x: usize| x as int) =~= event_indices(els@.take(k as int)));
    }
    assert(els@.take(els.len() as int) =~= els@);
    idx
}

fn build_events(els: &Vec<EventLine>, idx: &Vec<usize>) -> (r: Vec<Event>)
    requires
        idx@.map_values(|x: usize| x as int) == event_indices(els@),
    ensures
        events_match(r@, els@),
{
    let ghost ix = event_indices(els@);
    proof {
        lemma_event_indices(els@);
    }
    let mut events: Vec<Event> = Vec::new();
    let mut q: usize = 0;
    while q < idx.len()
        invariant
            q <= idx.len(),
            ix == event_indices(els@),
            idx@.map_values(|x: usize| x as int) == ix,
            events.len() == q,
            forall|q2: int|
                0 <= q2 < ix.len() ==> 0 <= #[trigger] ix[q2] < els.len() && els@[ix[q2]] is Event,
            forall|q2: int, k2: int|
                #![trigger ix[q2], els@[k2]]
                0 <= q2 < ix.len() && ix[q2] < k2 < next_index(ix, q2, els.len() as int)
                    ==> els@[k2] is Command,
            forall|q2: int|
                0 <= q2 < ix.len() ==> #[trigger] ix[q2] < next_index(ix, q2, els.len() as int) <= els.len(),
            forall|q2: int|
                0 <= q2 < q ==> (els@[ix[q2]] matches EventLine::Event(h) && event_built(
                    #[trigger] events@[q2],
                    h,
                    command_lines(els@.subrange(ix[q2] + 1, next_index(ix, q2, els.len() as int))),
                )),
        decreases idx.len() - q,
    {
        assert(ix[q as int] == idx@[q as int] as int);
        let pos = idx[q];
        let end = if q + 1 < idx.len() {
            assert(ix[q + 1] == idx@[q + 1] as int);
            idx[q + 1]
        } else {
            els.len()
        };
        assert(end as int == next_index(ix, q as int, els.len() as int));
        let commands = collect_commands(els, pos + 1, end);
        let e = match &els[pos] {
            EventLine::Event(h) => build_event(h, commands),
            EventLine::Command(_) => {
                assert(false);
                return events;
            },
        };
        events.push(e);
        q += 1;
    }
    events
}

/// Reads the `[Events]` section; `None` where a content line (comment removed,
/// trailing whitespace trimmed, not empty) is not a valid event or command.
pub fn parse_events_section(section_text: &str) -> (r: Option<EventsSection>)
    ensures
        r is Some <==> events_section_ok(section_text@),
        r matches Some(es) ==> exists|els: Seq<EventLine>|
            #![trigger event_lines_match(els, event_contents(lines(section_text@)))]
            event_lines_match(els, event_contents(lines(section_text@))) && events_match(
                es.events@,
                els,
            ),
{
    let els = match parse_event_lines(section_text) {
        Some(els) => els,
        None => return None,
    };
    let idx = event_positions(&els);
    let events = build_events(&els, &idx);
    let r = EventsSection { events };
    assert(event_lines_match(els@, event_contents(lines(section_text@))) && events_match(r.events@, els@));
    Some(r)
}

/// `n` underscores.
pub open spec fn tabs_text(n: nat) -> Seq<char> {
    Seq::new(n, |i: int| '_')
}

pub open spec fn parameter_text(p: Parameter) -> Seq<char> {
    match p {
        Parameter::FlipH => "H"@,
        Parameter::FlipV => "V"@,
        Parameter::AdditiveBlend => "A"@,
    }
}

/// The line of a command itself, indented by `tab` underscores.
pub open spec fn command_line_text(c: Command, tab: nat) -> Seq<char> {
    tabs_text(tab) + command_body_text(c)
}

/// The line of a command, without its indentation.
pub open spec fn command_body_text(c: Command) -> Seq<char> {
    match c {
        Command::FadeCommand(x) => "F,"@ + x.easing@ + ","@ + x.start_time@ + ","@ + x.end_time@ + ","@
            + x.start_opacity@ + ","@ + x.end_opacity@ + "\n"@,
        Command::MoveCommand(x) => "M,"@ + x.easing@ + ","@ + x.start_time@ + ","@ + x.end_time@ + ","@
            + x.start_x@ + ","@ + x.start_y@ + ","@ + x.end_x@ + ","@ + x.end_y@ + "\n"@,
        Command::MoveXCommand(x) => "MX,"@ + x.easing@ + ","@ + x.start_time@ + ","@ + x.end_time@
            + ","@ + x.start_x@ + ","@ + x.end_x@ + "\n"@,
        Command::MoveYCommand(x) => "MY,"@ + x.easing@ + ","@ + x.start_time@ + ","@ + x.end_time@
            + ","@ + x.start_y@ + ","@ + x.end_y@ + "\n"@,
        Command::ScaleCommand(x) => "S,"@ + x.easing@ + ","@ + x.start_time@ + ","@ + x.end_time@ + ","@
            + x.start_scale@ + ","@ + x.end_scale@ + "\n"@,
        Command::VectorScaleCommand(x) => "V,"@ + x.easing@ + ","@ + x.start_time@ + ","@ + x.end_time@
            + ","@ + x.start_scale_x@ + ","@ + x.start_scale_y@ + ","@ + x.end_scale_x@ + ","@
            + x.end_scale_y@ + "\n"@,
        Command::RotateCommand(x) => "R,"@ + x.easing@ + ","@ + x.start_time@ + ","@ + x.end_time@ + ","@
            + x.start_angle@ + ","@ + x.end_angle@ + "\n"@,
        Command::ColourCommand(x) => "C,"@ + x.easing@ + ","@ + x.start_time@ + ","@ + x.end_time@ + ","@
            + int_text(x.start_r as int) + ","@ + int_text(x.start_g as int) + ","@ + int_text(
            x.start_b as int,
        ) + ","@ + int_text(x.end_r as int) + ","@ + int_text(x.end_g as int) + ","@ + int_text(
            x.end_b as int,
        ) + "\n"@,
        Command::ParameterCommand(x) => "P,"@ + x.easing@ + ","@ + x.start_time@ + ","@ + x.end_time@
            + ","@ + parameter_text(x.parameter) + "\n"@,
        Command::LoopCommand(x) => "L,"@ + x.start_time@ + ","@ + int_text(x.loop_count as int)
            + "\n"@,
        Command::TriggerCommand(x) => "T,"@ + x.trigger_type@ + ","@ + x.start_time@ + ","@
            + x.end_time@ + "\n"@,
    }
}

/// A command's lines: its own line, then (for a loop or trigger) the lines of
/// its inner commands, indented one deeper.
pub open spec fn command_text(c: Command, tab: nat) -> Seq<char>
    decreases c, 1nat,
{
    command_line_text(c, tab) + match c {
        Command::LoopCommand(x) => commands_text(x.inner_commands@, tab + 1, x.inner_commands@.len()),
        Command::TriggerCommand(x) => commands_text(x.inner_commands@, tab + 1, x.inner_commands@.len()),
        _ => seq![],
    }
}

/// The lines of the first `n` commands of `cs`.
pub open spec fn commands_text(cs: Seq<Command>, tab: nat, n: nat) -> Seq<char>
    decreases cs, n,
{
    if n == 0 || n > cs.len() {
        seq![]
    } else {
        commands_text(cs, tab, (n - 1) as nat) + command_text(cs[n - 1], tab)
    }
}

/// The commands nest at most `room` levels deep below `c`.
pub open spec fn nesting_fits(c: Command, room: int) -> bool
    decreases c,
{
    match c {
        Command::LoopCommand(x) => room >= 1 && forall|i: int|
            0 <= i < x.inner_commands@.len() ==> nesting_fits(#[trigger] x.inner_commands@[i], room - 1),
        Command::TriggerCommand(x) => room >= 1 && forall|i: int|
            0 <= i < x.inner_commands@.len() ==> nesting_fits(#[trigger] x.inner_commands@[i], room - 1),
        _ => true,
    }
}

fn commands_fit(cs: &Vec<Command>, room: i64) -> (r: bool)
    ensures
        r == forall|i: int| 0 <= i < cs@.len() ==> nesting_fits(#[trigger] cs@[i], room as int),
    decreases cs@, 0nat,
{
    let mut i: usize = 0;
    while i < cs.len()
        invariant
            i <= cs.len(),
            forall|k: int| 0 <= k < i ==> nesting_fits(#[trigger] cs@[k], room as int),
        decreases cs.len() - i,
    {
        if !command_fits(&cs[i], room) {
            return false;
        }
        i += 1;
    }
    true
}

fn command_fits(c: &Command, room: i64) -> (r: bool)
    ensures
        r == nesting_fits(*c, room as int),
    decreases *c, 1nat,
{
    match c {
        Command::LoopCommand(x) => room >= 1 && commands_fit(&x.inner_commands, room - 1),
        Command::TriggerCommand(x) => room >= 1 && commands_fit(&x.inner_commands, room - 1),
        _ => true,
    }
}

/// Whether the events can be written: their commands nest no deeper than the
/// writer's indentation count (an `i32`) allows.
pub fn events_writable(section: &EventsSection) -> (r: bool)
    ensures
        r == forall|i: int|
            0 <= i < section.events@.len() ==> event_nesting_fits(#[trigger] section.events@[i]),
{
    let mut i: usize = 0;
    while i < section.events.len()
        invariant
            i <= section.events.len(),
            forall|k: int| 0 <= k < i ==> event_nesting_fits(#[trigger] section.events@[k]),
        decreases section.events.len() - i,
    {
        let fits = match &section.events[i] {
            Event::Sprite(x) => commands_fit(&x.commands, i32::MAX as i64 - 1),
            Event::Animation(x) => commands_fit(&x.commands, i32::MAX as i64 - 1),
            _ => true,
        };
        if !fits {
            return false;
        }
        i += 1;
    }
    true
}

fn push_tabs(out: &mut Vec<char>, n: i32)
    requires
        n >= 0,
    ensures
        final(out)@ == old(out)@ + tabs_text(n as nat),
{
    let mut i: i32 = 0;
    while i < n
        invariant
            0 <= i <= n,
            out@ == old(out)@ + tabs_text(i as nat),
        decreases n - i,
    {
        out.push('_');
        i += 1;
        assert(out@ =~= old(out)@ + tabs_text(i as nat));
    }
}

fn push_parameter(out: &mut Vec<char>, p: Parameter)
    ensures
        final(out)@ == old(out)@ + parameter_text(p),
{
    match p {
        Parameter::FlipH => push_str(out, "H"),
        Parameter::FlipV => push_str(out, "V"),
        Parameter::AdditiveBlend => push_str(out, "A"),
    }
}

#[verifier::spinoff_prover]
#[verifier::rlimit(100)]
fn push_command_body(c: &Command, out: &mut Vec<char>)
    ensures
        final(out)@ == old(out)@ + command_body_text(*c),
{
    let ghost start = out@;
    match c {
        Command::FadeCommand(x) => {
            push_str(out, "F,");
            push_str(out, x.easing.as_str());
            push_str(out, ",");
            push_str(out, x.start_time.as_str());
            push_str(out, ",");
            push_str(out, x.end_time.as_str());
            push_str(out, ",");
            push_str(out, x.start_opacity.as_str());
            push_str(out, ",");
            push_str(out, x.end_opacity.as_str());
            push_str(out, "\n");
            assert(out@ =~= start + command_body_text(*c));
        },
        Command::MoveCommand(x) => {
            push_str(out, "M,");
            push_str(out, x.easing.as_str());
            push_str(out, ",");
            push_str(out, x.start_time.as_str());
            push_str(out, ",");
            push_str(out, x.end_time.as_str());
            push_str(out, ",");
            push_str(out, x.start_x.as_str());
            push_str(out, ",");
            push_str(out, x.start_y.as_str());
            push_str(out, ",");
            push_str(out, x.end_x.as_str());
            push_str(out, ",");
            push_str(out, x.end_y.as_str());
            push_str(out, "\n");
            assert(out@ =~= start + command_body_text(*c));
        },
        Command::MoveXCommand(x) => {
            push_str(out, "MX,");
            push_str(out, x.easing.as_str());
            push_str(out, ",");
            push_str(out, x.start_time.as_str());
            push_str(out, ",");
            push_str(out, x.end_time.as_str());
            push_str(out, ",");
            push_str(out, x.start_x.as_str());
            push_str(out, ",");
            push_str(out, x.end_x.as_str());
            push_str(out, "\n");
            assert(out@ =~= start + command_body_text(*c));
        },
        Command::MoveYCommand(x) => {
            push_str(out, "MY,");
            push_str(out, x.easing.as_str());
            push_str(out, ",");
            push_str(out, x.start_time.as_str());
            push_str(out, ",");
            push_str(out, x.end_time.as_str());
            push_str(out, ",");
            push_str(out, x.start_y.as_str());
            push_str(out, ",");
            push_str(out, x.end_y.as_str());
            push_str(out, "\n");
            assert(out@ =~= start + command_body_text(*c));
        },
        Command::ScaleCommand(x) => {
            push_str(out, "S,");
            push_str(out, x.easing.as_str());
            push_str(out, ",");
            push_str(out, x.start_time.as_str());
            push_str(out, ",");
            push_str(out, x.end_time.as_str());
            push_str(out, ",");
            push_str(out, x.start_scale.as_str());
            push_str(out, ",");
            push_str(out, x.end_scale.as_str());
            push_str(out, "\n");
            assert(out@ =~= start + command_body_text(*c));
        },
        Command::VectorScaleCommand(x) => {
            push_str(out, "V,");
            push_str(out, x.easing.as_str());
            push_str(out, ",");
            push_str(out, x.start_time.as_str());
            push_str(out, ",");
            push_str(out, x.end_time.as_str());
            push_str(out, ",");
            push_str(out, x.start_scale_x.as_str());
            push_str(out, ",");
            push_str(out, x.start_scale_y.as_str());
            push_str(out, ",");
            push_str(out, x.end_scale_x.as_str());
            push_str(out, ",");
            push_str(out, x.end_scale_y.as_str());
            push_str(out, "\n");
            assert(out@ =~= start + command_body_text(*c));
        },
        Command::RotateCommand(x) => {
            push_str(out, "R,");
            push_str(out, x.easing.as_str());
            push_str(out, ",");
            push_str(out, x.start_time.as_str());
            push_str(out, ",");
            push_str(out, x.end_time.as_str());
            push_str(out, ",");
            push_str(out, x.start_angle.as_str());
            push_str(out, ",");
            push_str(out, x.end_angle.as_str());
            push_str(out, "\n");
            assert(out@ =~= start + command_body_text(*c));
        },
        Command::ColourCommand(x) => {
            push_str(out, "C,");
            push_str(out, x.easing.as_str());
            push_str(out, ",");
            push_str(out, x.start_time.as_str());
            push_str(out, ",");
            push_str(out, x.end_time.as_str());
            push_str(out, ",");
            push_int(out, x.start_r as i128);
            push_str(out, ",");
            push_int(out, x.start_g as i128);
            push_str(out, ",");
            push_int(out, x.start_b as i128);
            push_str(out, ",");
            push_int(out, x.end_r as i128);
            push_str(out, ",");
            push_int(out, x.end_g as i128);
            push_str(out, ",");
            push_int(out, x.end_b as i128);
            push_str(out, "\n");
            assert(out@ =~= start + command_body_text(*c));
        },
        Command::ParameterCommand(x) => {
            push_str(out, "P,");
            push_str(out, x.easing.as_str());
            push_str(out, ",");
            push_str(out, x.start_time.as_str());
            push_str(out, ",");
            push_str(out, x.end_time.as_str());
            push_str(out, ",");
            push_parameter(out, x.parameter);
            push_str(out, "\n");
            assert(out@ =~= start + command_body_text(*c));
        },
        Command::LoopCommand(x) => {
            push_str(out, "L,");
            push_str(out, x.start_time.as_str());
            push_str(out, ",");
            push_int(out, x.loop_count as i128);
            push_str(out, "\n");
            assert(out@ =~= start + command_body_text(*c));
        },
        Command::TriggerCommand(x) => {
            push_str(out, "T,");
            push_str(out, x.trigger_type.as_str());
            push_str(out, ",");
            push_str(out, x.start_time.as_str());
            push_str(out, ",");
            push_str(out, x.end_time.as_str());
            push_str(out, "\n");
            assert(out@ =~= start + command_body_text(*c));
        },
    }
}

fn push_command_line(c: &Command, tab: i32, out: &mut Vec<char>)
    requires
        tab >= 0,
    ensures
        final(out)@ == old(out)@ + command_line_text(*c, tab as nat),
{
    push_tabs(out, tab);
    push_command_body(c, out);
    assert(final(out)@ =~= old(out)@ + command_line_text(*c, tab as nat));
}

fn push_commands(cs: &Vec<Command>, tab: i32, out: &mut Vec<char>)
    requires
        tab >= 0,
        forall|i: int| 0 <= i < cs@.len() ==> nesting_fits(#[trigger] cs@[i], i32::MAX - tab),
    ensures
        final(out)@ == old(out)@ + commands_text(cs@, tab as nat, cs@.len()),
    decreases cs@, 0nat,
{
    let mut i: usize = 0;
    while i < cs.len()
        invariant
            i <= cs.len(),
            tab >= 0,
            forall|k: int| 0 <= k < cs@.len() ==> nesting_fits(#[trigger] cs@[k], i32::MAX - tab),
            out@ == old(out)@ + commands_text(cs@, tab as nat, i as nat),
        decreases cs.len() - i,
    {
        push_command(&cs[i], tab, out);
        i += 1;
        assert(out@ =~= old(out)@ + commands_text(cs@, tab as nat, i as nat));
    }
}

fn push_command(c: &Command, tab: i32, out: &mut Vec<char>)
    requires
        tab >= 0,
        nesting_fits(*c, i32::MAX - tab),
    ensures
        final(out)@ == old(out)@ + command_text(*c, tab as nat),
    decreases *c, 1nat,
{
    push_command_line(c, tab, out);
    match c {
        Command::LoopCommand(x) => {
            push_commands(&x.inner_commands, tab + 1, out);
        },
        Command::TriggerCommand(x) => {
            push_commands(&x.inner_commands, tab + 1, out);
        },
        _ => {},
    }
    assert(final(out)@ =~= old(out)@ + command_text(*c, tab as nat));
}

impl Command {
    /// The command's lines, indented by `tab_count` underscores, its inner
    /// commands one deeper.
    pub fn to_string(&self, tab_count: i32) -> (r: String)
        requires
            tab_count >= 0,
            nesting_fits(*self, i32::MAX - tab_count),
        ensures
            r@ == command_text(*self, tab_count as nat),
    {
        let mut out: Vec<char> = Vec::new();
        push_command(self, tab_count, &mut out);
        assert(out@ =~= command_text(*self, tab_count as nat));
        string_of(&out)
    }
}

/// The commands of an event fit the indentation that writing them uses.
pub open spec fn event_nesting_fits(e: Event) -> bool {
    match e {
        Event::Sprite(x) => forall|i: int|
            0 <= i < x.commands@.len() ==> nesting_fits(#[trigger] x.commands@[i], i32::MAX - 1),
        Event::Animation(x) => forall|i: int|
            0 <= i < x.commands@.len() ==> nesting_fits(#[trigger] x.commands@[i], i32::MAX - 1),
        _ => true,
    }
}

/// An event's lines: its own line, then its commands indented by one.
pub open spec fn event_text(e: Event) -> Seq<char> {
    match e {
        Event::Background(x) => "Background,"@ + x.start_time@ + ","@ + x.file_path@ + ","@ + x.x@
            + ","@ + x.y@ + "\n"@,
        Event::Video(x) => "Video,"@ + x.start_time@ + ","@ + x.file_path@ + ","@ + x.x@ + ","@
            + x.y@ + "\n"@,
        Event::Break(x) => "Break,"@ + x.start_time@ + ","@ + x.end_time@ + "\n"@,
        Event::Sprite(x) => "Sprite,"@ + x.layer@ + ","@ + x.origin@ + ","@ + x.file_path@ + ","@
            + x.x@ + ","@ + x.y@ + "\n"@ + commands_text(x.commands@, 1, x.commands@.len()),
        Event::Animation(x) => "Animation,"@ + x.layer@ + ","@ + x.origin@ + ","@ + x.file_path@
            + ","@ + x.x@ + ","@ + x.y@ + ","@ + x.frame_count@ + ","@ + x.frame_delay@ + ","@
            + x.loop_type@ + "\n"@ + commands_text(x.commands@, 1, x.commands@.len()),
    }
}

/// The lines of all events, in order.
pub open spec fn events_text(es: Seq<Event>) -> Seq<char>
    decreases es.len(),
{
    if es.len() == 0 {
        seq![]
    } else {
        events_text(es.drop_last()) + event_text(es.last())
    }
}

#[verifier::spinoff_prover]
fn push_event(e: &Event, out: &mut Vec<char>)
    requires
        event_nesting_fits(*e),
    ensures
        final(out)@ == old(out)@ + event_text(*e),
{
    let ghost start = out@;
    match e {
        Event::Background(x) => {
            push_str(out, "Background,");
            push_str(out, x.start_time.as_str());
            push_str(out, ",");
            push_str(out, x.file_path.as_str());
            push_str(out, ",");
            push_str(out, x.x.as_str());
            push_str(out, ",");
            push_str(out, x.y.as_str());
            push_str(out, "\n");
            assert(out@ =~= start + event_text(*e));
        },
        Event::Video(x) => {
            push_str(out, "Video,");
            push_str(out, x.start_time.as_str());
            push_str(out, ",");
            push_str(out, x.file_path.as_str());
            push_str(out, ",");
            push_str(out, x.x.as_str());
            push_str(out, ",");
            push_str(out, x.y.as_str());
            push_str(out, "\n");
            assert(out@ =~= start + event_text(*e));
        },
        Event::Break(x) => {
            push_str(out, "Break,");
            push_str(out, x.start_time.as_str());
            push_str(out, ",");
            push_str(out, x.end_time.as_str());
            push_str(out, "\n");
            assert(out@ =~= start + event_text(*e));
        },
        Event::Sprite(x) => {
            push_str(out, "Sprite,");
            push_str(out, x.layer.as_str());
            push_str(out, ",");
            push_str(out, x.origin.as_str());
            push_str(out, ",");
            push_str(out, x.file_path.as_str());
            push_str(out, ",");
            push_str(out, x.x.as_str());
            push_str(out, ",");
            push_str(out, x.y.as_str());
            push_str(out, "\n");
            push_commands(&x.commands, 1, out);
            assert(out@ =~= start + event_text(*e));
        },
        Event::Animation(x) => {
            push_str(out, "Animation,");
            push_str(out, x.layer.as_str());
            push_str(out, ",");
            push_str(out, x.origin.as_str());
            push_str(out, ",");
            push_str(out, x.file_path.as_str());
            push_str(out, ",");
            push_str(out, x.x.as_str());
            push_str(out, ",");
            push_str(out, x.y.as_str());
            push_str(out, ",");
            push_str(out, x.frame_count.as_str());
            push_str(out, ",");
            push_str(out, x.frame_delay.as_str());
            push_str(out, ",");
            push_str(out, x.loop_type.as_str());
            push_str(out, "\n");
            push_commands(&x.commands, 1, out);
            assert(out@ =~= start + event_text(*e));
        },
    }
}

impl EventsSection {
    /// Writes the lines of all events.
    pub fn to_osu_text(&self) -> (r: String)
        requires
            forall|i: int| 0 <= i < self.events@.len() ==> event_nesting_fits(#[trigger] self.events@[i]),
        ensures
            r@ == events_text(self.events@),
    {
        let mut out: Vec<char> = Vec::new();
        let mut i: usize = 0;
        while i < self.events.len()
            invariant
                i <= self.events.len(),
                forall|k: int| 0 <= k < self.events@.len() ==> event_nesting_fits(#[trigger] self.events@[k]),
                out@ == events_text(self.events@.take(i as int)),
            decreases self.events.len() - i,
        {
            assert(self.events@.take(i + 1).drop_last() =~= self.events@.take(i as int));
            push_event(&self.events[i], &mut out);
            i += 1;
        }
        assert(self.events@.take(i as int) =~= self.events@);
        string_of(&out)
    }
}

} // verus!
