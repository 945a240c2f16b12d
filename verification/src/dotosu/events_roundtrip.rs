//! Reading back the `[Events]` lines that the writer writes.
use vstd::prelude::*;
use crate::text::{
    field, find, is_ws, lead_in, strip_cr, lemma_find, lemma_lead_in, lemma_trail_ws_char, occurs_at, split,
    trim_end, trim_start_in,
};
use crate::dotosu::roundtrip::{clean_field, is_trimmed, lemma_trim_trimmed, one_line};
use crate::dotosu::objects_roundtrip::{free_of, join, lemma_join_free, lemma_join_split, lemma_join_take};
use crate::text::{int_text, lemma_int_text_parse, lemma_nat_text, lemma_trail_of, nat_text, trim_char};
use crate::dotosu::roundtrip::lemma_int_field;
use crate::dotosu::events::{
    Animation, BackgroundEvent, BreakEvent, ColourCommand, Command, Event, FadeCommand,
    LoopCommand, MoveCommand, MoveXCommand, MoveYCommand, ParameterCommand, RotateCommand,
    ScaleCommand, Sprite, TriggerCommand, VectorScaleCommand, VideoEvent, command_body_text,
    event_content, event_type, parameter_text, tab_count, tabs_text, EventLine, Parameter,
    event_line_ok, event_line_matches, lemma_type_names, parameter_of,
};

use crate::float_syntax::float_text;

verus! {

/// Text without a `//`, which would start a comment.
pub open spec fn no_comment(s: Seq<char>) -> bool {
    forall|i: int| 0 <= i < s.len() - 1 ==> !(s[i] == '/' && #[trigger] s[i + 1] == '/')
}

/// Pieces without `//`, joined by a character other than `/`, have no `//`.
proof fn lemma_join_no_comment(ps: Seq<Seq<char>>, c: char)
    requires
        c != '/',
        forall|j: int| 0 <= j < ps.len() ==> no_comment(#[trigger] ps[j]),
    ensures
        no_comment(join(ps, c)),
    decreases ps.len(),
{
    if ps.len() == 1 {
        assert(no_comment(ps[0]));
    } else if ps.len() > 1 {
        let rest = ps.drop_first();
        assert forall|j: int| 0 <= j < rest.len() implies no_comment(#[trigger] rest[j]) by {
            assert(rest[j] == ps[j + 1]);
        }
        lemma_join_no_comment(rest, c);
        assert(no_comment(ps[0]));
        let a = ps[0];
        let b = join(rest, c);
        let s = a + seq![c] + b;
        assert forall|i: int| 0 <= i < s.len() - 1 implies !(s[i] == '/' && #[trigger] s[i + 1]
            == '/') by {
            if i + 1 < a.len() {
                assert(s[i] == a[i] && s[i + 1] == a[i + 1]);
                assert(!(a[i] == '/' && a[i + 1] == '/'));
            } else if i + 1 == a.len() {
                assert(s[i + 1] == c);
            } else if i == a.len() {
                assert(s[i] == c);
            } else {
                let k = i - a.len() - 1;
                assert(s[i] == b[k] && s[i + 1] == b[k + 1]);
                assert(!(b[k] == '/' && b[k + 1] == '/'));
            }
        }
    }
}

/// Text without `//` has no comment to find.
proof fn lemma_no_comment_find(s: Seq<char>)
    requires
        no_comment(s),
    ensures
        find(s, "//"@) is None,
{
    reveal_strlit("//");
    let p = "//"@;
    assert forall|j: int| 0 <= j < s.len() implies !#[trigger] occurs_at(s, p, j) by {
        if occurs_at(s, p, j) {
            assert(s.subrange(j, j + 2)[0] == s[j]);
            assert(s.subrange(j, j + 2)[1] == s[j + 1]);
        }
    }
    lemma_find(s, p, s.len() as int);
}

/// A line on one line without `//` whose last character is no whitespace is
/// its own content.
proof fn lemma_event_content_self(l: Seq<char>)
    requires
        no_comment(l),
        l.len() > 0,
        !is_ws(l.last()),
    ensures
        event_content(l) == l,
{
    lemma_no_comment_find(l);
    lemma_trail_ws_char(l, 0);
    assert(l.take(l.len() as int) =~= l);
}

/// A piece of an events line that reads back: a clean field without `//`.
pub open spec fn event_field(s: Seq<char>) -> bool {
    clean_field(s) && no_comment(s)
}

/// A field that reads back and reads as a number.
pub open spec fn event_number(s: Seq<char>) -> bool {
    event_field(s) && float_text(s)
}

/// The pieces of a line, the first behind `t` indentation characters.
pub open spec fn tagged(ps: Seq<Seq<char>>, t: nat) -> Seq<Seq<char>> {
    ps.update(0, tabs_text(t) + ps[0])
}

/// A line: the pieces joined by commas, the first behind `t` underscores.
pub open spec fn event_line_text(ps: Seq<Seq<char>>, t: nat) -> Seq<char> {
    join(tagged(ps, t), ',')
}

/// A type name: not empty, starting with neither a space nor `_`, without
/// whitespace at its ends, commas, line breaks or `/`.
pub open spec fn kind_name(s: Seq<char>) -> bool {
    &&& s.len() > 0
    &&& s[0] != ' '
    &&& s[0] != '_'
    &&& clean_field(s)
    &&& free_of(s, '/')
}

/// What a line made of a type name and clean pieces reads as: its pieces,
/// its type, its indentation and each field.
pub proof fn lemma_line_decode(ps: Seq<Seq<char>>, t: nat)
    requires
        ps.len() >= 2,
        kind_name(ps[0]),
        forall|j: int| 1 <= j < ps.len() ==> event_field(#[trigger] ps[j]),
        t <= i32::MAX,
    ensures
        split(event_line_text(ps, t), ',') == tagged(ps, t),
        event_type(split(event_line_text(ps, t), ',')) == ps[0],
        tab_count(event_line_text(ps, t)) == t as i32,
        forall|j: int| 1 <= j < ps.len() ==> #[trigger] field(tagged(ps, t), j) == ps[j],
        one_line(event_line_text(ps, t)),
        event_content(event_line_text(ps, t)) == event_line_text(ps, t),
        event_line_text(ps, t).len() > 0,
        strip_cr(event_line_text(ps, t)) == event_line_text(ps, t),
        is_trimmed(event_line_text(ps, t)),
{
    let tp = tagged(ps, t);
    let l = event_line_text(ps, t);
    let head = tabs_text(t) + ps[0];
    assert(tp[0] == head);
    assert(kind_name(ps[0]));
    assert forall|j: int| 0 <= j < tp.len() implies free_of(#[trigger] tp[j], ',') && free_of(
        tp[j],
        '\n',
    ) && no_comment(tp[j]) by {
        if j == 0 {
            assert forall|i: int| 0 <= i < head.len() implies head[i] != ',' && head[i] != '\n'
                && head[i] != '/' by {
                if i >= t {
                    assert(head[i] == ps[0][i - t]);
                }
            }
        } else {
            assert(tp[j] == ps[j]);
            assert(event_field(ps[j]));
        }
    }
    lemma_join_split(tp, ',');
    lemma_join_free(tp, ',', '\n');
    lemma_join_no_comment(tp, ',');
    // The type behind the indentation.
    assert forall|i: int| 0 <= i < t implies #[trigger] head[i] == ' ' || head[i] == '_' by {}
    assert(head[t as int] == ps[0][0]);
    lemma_lead_in(head, ' ', '_', t as int);
    assert(head.skip(t as int) =~= ps[0]);
    // The indentation of the whole line.
    assert(l == head + seq![','] + join(tp.drop_first(), ','));
    assert forall|i: int| 0 <= i < t implies #[trigger] l[i] == ' ' || l[i] == '_' by {
        assert(l[i] == head[i]);
    }
    assert(l[t as int] == head[t as int]);
    lemma_lead_in(l, ' ', '_', t as int);
    // Each field is its piece.
    assert forall|j: int| 1 <= j < ps.len() implies #[trigger] field(tp, j) == ps[j] by {
        assert(tp[j] == ps[j]);
        assert(event_field(ps[j]));
        lemma_trim_trimmed(ps[j]);
    }
    // The last character is no whitespace.
    let last = ps[ps.len() - 1];
    assert(event_field(last));
    lemma_join_last(tp, ',');
    if last.len() > 0 {
        assert(tp.last() == last);
        assert(!is_ws(last.last()));
    }
    assert(is_ws('\r'));
    lemma_event_content_self(l);
    if t > 0 {
        assert(l[0] == '_');
    } else {
        assert(l[0] == ps[0][0]);
    }
}

/// The last character of joined pieces: that of the last piece, or the
/// separator where the last piece is empty.
proof fn lemma_join_last(ps: Seq<Seq<char>>, c: char)
    requires
        ps.len() >= 2,
    ensures
        join(ps, c).len() > 0,
        ps.last().len() > 0 ==> join(ps, c).last() == ps.last().last(),
        ps.last().len() == 0 ==> join(ps, c).last() == c,
    decreases ps.len(),
{
    let rest = ps.drop_first();
    if ps.len() == 2 {
        assert(rest =~= seq![ps[1]]);
        assert(join(rest, c) == ps[1]);
    } else {
        lemma_join_last(rest, c);
        assert(rest.last() == ps.last());
    }
}

/// The pieces of a command's line: its type name, then its values.
pub open spec fn command_pieces(c: Command) -> Seq<Seq<char>> {
    match c {
        Command::FadeCommand(x) => seq!["F"@, x.easing@, x.start_time@, x.end_time@, x.start_opacity@, x.end_opacity@],
        Command::MoveCommand(x) => seq!["M"@, x.easing@, x.start_time@, x.end_time@, x.start_x@, x.start_y@, x.end_x@, x.end_y@],
        Command::MoveXCommand(x) => seq!["MX"@, x.easing@, x.start_time@, x.end_time@, x.start_x@, x.end_x@],
        Command::MoveYCommand(x) => seq!["MY"@, x.easing@, x.start_time@, x.end_time@, x.start_y@, x.end_y@],
        Command::ScaleCommand(x) => seq!["S"@, x.easing@, x.start_time@, x.end_time@, x.start_scale@, x.end_scale@],
        Command::VectorScaleCommand(x) => seq!["V"@, x.easing@, x.start_time@, x.end_time@, x.start_scale_x@, x.start_scale_y@, x.end_scale_x@, x.end_scale_y@],
        Command::RotateCommand(x) => seq!["R"@, x.easing@, x.start_time@, x.end_time@, x.start_angle@, x.end_angle@],
        Command::ColourCommand(x) => seq!["C"@, x.easing@, x.start_time@, x.end_time@, int_text(x.start_r as int), int_text(x.start_g as int), int_text(x.start_b as int), int_text(x.end_r as int), int_text(x.end_g as int), int_text(x.end_b as int)],
        Command::ParameterCommand(x) => seq!["P"@, x.easing@, x.start_time@, x.end_time@, parameter_text(x.parameter)],
        Command::LoopCommand(x) => seq!["L"@, x.start_time@, int_text(x.loop_count as int)],
        Command::TriggerCommand(x) => seq!["T"@, x.trigger_type@, x.start_time@, x.end_time@],
    }
}

/// The pieces of an event's line: its type name, then its values.
pub open spec fn event_pieces(e: Event) -> Seq<Seq<char>> {
    match e {
        Event::Background(x) => seq!["Background"@, x.start_time@, x.file_path@, x.x@, x.y@],
        Event::Video(x) => seq!["Video"@, x.start_time@, x.file_path@, x.x@, x.y@],
        Event::Break(x) => seq!["Break"@, x.start_time@, x.end_time@],
        Event::Sprite(x) => seq!["Sprite"@, x.layer@, x.origin@, x.file_path@, x.x@, x.y@],
        Event::Animation(x) => seq![
            "Animation"@,
            x.layer@,
            x.origin@,
            x.file_path@,
            x.x@,
            x.y@,
            x.frame_count@,
            x.frame_delay@,
            x.loop_type@,
        ],
    }
}

/// The first line of an event, with its line break.
pub open spec fn event_head_text(e: Event) -> Seq<char> {
    match e {
        Event::Background(x) => "Background,"@ + x.start_time@ + ","@ + x.file_path@ + ","@ + x.x@
            + ","@ + x.y@ + "\n"@,
        Event::Video(x) => "Video,"@ + x.start_time@ + ","@ + x.file_path@ + ","@ + x.x@ + ","@
            + x.y@ + "\n"@,
        Event::Break(x) => "Break,"@ + x.start_time@ + ","@ + x.end_time@ + "\n"@,
        Event::Sprite(x) => "Sprite,"@ + x.layer@ + ","@ + x.origin@ + ","@ + x.file_path@ + ","@
            + x.x@ + ","@ + x.y@ + "\n"@,
        Event::Animation(x) => "Animation,"@ + x.layer@ + ","@ + x.origin@ + ","@ + x.file_path@
            + ","@ + x.x@ + ","@ + x.y@ + ","@ + x.frame_count@ + ","@ + x.frame_delay@ + ","@
            + x.loop_type@ + "\n"@,
    }
}

proof fn lemma_fadecommand_text(x: FadeCommand)
    ensures
        command_body_text(Command::FadeCommand(x)) == join(command_pieces(Command::FadeCommand(x)), ',') + seq!['\n'],
{
    reveal_strlit("F,");
    reveal_strlit("F");
    reveal_strlit(",");
    reveal_strlit("\n");
    let ps = command_pieces(Command::FadeCommand(x));
    let c = seq![','];
    lemma_join_take(ps, 1, ',');
    lemma_join_take(ps, 2, ',');
    lemma_join_take(ps, 3, ',');
    lemma_join_take(ps, 4, ',');
    lemma_join_take(ps, 5, ',');
    assert(ps.take(6) =~= ps);
    assert(command_body_text(Command::FadeCommand(x)) =~= ps[0] + c + ps[1] + c + ps[2] + c + ps[3] + c + ps[4] + c + ps[5] + seq!['\n']);
}

proof fn lemma_movecommand_text(x: MoveCommand)
    ensures
        command_body_text(Command::MoveCommand(x)) == join(command_pieces(Command::MoveCommand(x)), ',') + seq!['\n'],
{
    reveal_strlit("M,");
    reveal_strlit("M");
    reveal_strlit(",");
    reveal_strlit("\n");
    let ps = command_pieces(Command::MoveCommand(x));
    let c = seq![','];
    lemma_join_take(ps, 1, ',');
    lemma_join_take(ps, 2, ',');
    lemma_join_take(ps, 3, ',');
    lemma_join_take(ps, 4, ',');
    lemma_join_take(ps, 5, ',');
    lemma_join_take(ps, 6, ',');
    lemma_join_take(ps, 7, ',');
    assert(ps.take(8) =~= ps);
    assert(command_body_text(Command::MoveCommand(x)) =~= ps[0] + c + ps[1] + c + ps[2] + c + ps[3] + c + ps[4] + c + ps[5] + c + ps[6] + c + ps[7] + seq!['\n']);
}

proof fn lemma_movexcommand_text(x: MoveXCommand)
    ensures
        command_body_text(Command::MoveXCommand(x)) == join(command_pieces(Command::MoveXCommand(x)), ',') + seq!['\n'],
{
    reveal_strlit("MX,");
    reveal_strlit("MX");
    reveal_strlit(",");
    reveal_strlit("\n");
    let ps = command_pieces(Command::MoveXCommand(x));
    let c = seq![','];
    lemma_join_take(ps, 1, ',');
    lemma_join_take(ps, 2, ',');
    lemma_join_take(ps, 3, ',');
    lemma_join_take(ps, 4, ',');
    lemma_join_take(ps, 5, ',');
    assert(ps.take(6) =~= ps);
    assert(command_body_text(Command::MoveXCommand(x)) =~= ps[0] + c + ps[1] + c + ps[2] + c + ps[3] + c + ps[4] + c + ps[5] + seq!['\n']);
}

proof fn lemma_moveycommand_text(x: MoveYCommand)
    ensures
        command_body_text(Command::MoveYCommand(x)) == join(command_pieces(Command::MoveYCommand(x)), ',') + seq!['\n'],
{
    reveal_strlit("MY,");
    reveal_strlit("MY");
    reveal_strlit(",");
    reveal_strlit("\n");
    let ps = command_pieces(Command::MoveYCommand(x));
    let c = seq![','];
    lemma_join_take(ps, 1, ',');
    lemma_join_take(ps, 2, ',');
    lemma_join_take(ps, 3, ',');
    lemma_join_take(ps, 4, ',');
    lemma_join_take(ps, 5, ',');
    assert(ps.take(6) =~= ps);
    assert(command_body_text(Command::MoveYCommand(x)) =~= ps[0] + c + ps[1] + c + ps[2] + c + ps[3] + c + ps[4] + c + ps[5] + seq!['\n']);
}

proof fn lemma_scalecommand_text(x: ScaleCommand)
    ensures
        command_body_text(Command::ScaleCommand(x)) == join(command_pieces(Command::ScaleCommand(x)), ',') + seq!['\n'],
{
    reveal_strlit("S,");
    reveal_strlit("S");
    reveal_strlit(",");
    reveal_strlit("\n");
    let ps = command_pieces(Command::ScaleCommand(x));
    let c = seq![','];
    lemma_join_take(ps, 1, ',');
    lemma_join_take(ps, 2, ',');
    lemma_join_take(ps, 3, ',');
    lemma_join_take(ps, 4, ',');
    lemma_join_take(ps, 5, ',');
    assert(ps.take(6) =~= ps);
    assert(command_body_text(Command::ScaleCommand(x)) =~= ps[0] + c + ps[1] + c + ps[2] + c + ps[3] + c + ps[4] + c + ps[5] + seq!['\n']);
}

proof fn lemma_vectorscalecommand_text(x: VectorScaleCommand)
    ensures
        command_body_text(Command::VectorScaleCommand(x)) == join(command_pieces(Command::VectorScaleCommand(x)), ',') + seq!['\n'],
{
    reveal_strlit("V,");
    reveal_strlit("V");
    reveal_strlit(",");
    reveal_strlit("\n");
    let ps = command_pieces(Command::VectorScaleCommand(x));
    let c = seq![','];
    lemma_join_take(ps, 1, ',');
    lemma_join_take(ps, 2, ',');
    lemma_join_take(ps, 3, ',');
    lemma_join_take(ps, 4, ',');
    lemma_join_take(ps, 5, ',');
    lemma_join_take(ps, 6, ',');
    lemma_join_take(ps, 7, ',');
    assert(ps.take(8) =~= ps);
    assert(command_body_text(Command::VectorScaleCommand(x)) =~= ps[0] + c + ps[1] + c + ps[2] + c + ps[3] + c + ps[4] + c + ps[5] + c + ps[6] + c + ps[7] + seq!['\n']);
}

proof fn lemma_rotatecommand_text(x: RotateCommand)
    ensures
        command_body_text(Command::RotateCommand(x)) == join(command_pieces(Command::RotateCommand(x)), ',') + seq!['\n'],
{
    reveal_strlit("R,");
    reveal_strlit("R");
    reveal_strlit(",");
    reveal_strlit("\n");
    let ps = command_pieces(Command::RotateCommand(x));
    let c = seq![','];
    lemma_join_take(ps, 1, ',');
    lemma_join_take(ps, 2, ',');
    lemma_join_take(ps, 3, ',');
    lemma_join_take(ps, 4, ',');
    lemma_join_take(ps, 5, ',');
    assert(ps.take(6) =~= ps);
    assert(command_body_text(Command::RotateCommand(x)) =~= ps[0] + c + ps[1] + c + ps[2] + c + ps[3] + c + ps[4] + c + ps[5] + seq!['\n']);
}

proof fn lemma_colourcommand_text(x: ColourCommand)
    ensures
        command_body_text(Command::ColourCommand(x)) == join(command_pieces(Command::ColourCommand(x)), ',') + seq!['\n'],
{
    reveal_strlit("C,");
    reveal_strlit("C");
    reveal_strlit(",");
    reveal_strlit("\n");
    let ps = command_pieces(Command::ColourCommand(x));
    let c = seq![','];
    lemma_join_take(ps, 1, ',');
    lemma_join_take(ps, 2, ',');
    lemma_join_take(ps, 3, ',');
    lemma_join_take(ps, 4, ',');
    lemma_join_take(ps, 5, ',');
    lemma_join_take(ps, 6, ',');
    lemma_join_take(ps, 7, ',');
    lemma_join_take(ps, 8, ',');
    lemma_join_take(ps, 9, ',');
    assert(ps.take(10) =~= ps);
    assert(command_body_text(Command::ColourCommand(x)) =~= ps[0] + c + ps[1] + c + ps[2] + c + ps[3] + c + ps[4] + c + ps[5] + c + ps[6] + c + ps[7] + c + ps[8] + c + ps[9] + seq!['\n']);
}

proof fn lemma_parametercommand_text(x: ParameterCommand)
    ensures
        command_body_text(Command::ParameterCommand(x)) == join(command_pieces(Command::ParameterCommand(x)), ',') + seq!['\n'],
{
    reveal_strlit("P,");
    reveal_strlit("P");
    reveal_strlit(",");
    reveal_strlit("\n");
    let ps = command_pieces(Command::ParameterCommand(x));
    let c = seq![','];
    lemma_join_take(ps, 1, ',');
    lemma_join_take(ps, 2, ',');
    lemma_join_take(ps, 3, ',');
    lemma_join_take(ps, 4, ',');
    assert(ps.take(5) =~= ps);
    assert(command_body_text(Command::ParameterCommand(x)) =~= ps[0] + c + ps[1] + c + ps[2] + c + ps[3] + c + ps[4] + seq!['\n']);
}

proof fn lemma_loopcommand_text(x: LoopCommand)
    ensures
        command_body_text(Command::LoopCommand(x)) == join(command_pieces(Command::LoopCommand(x)), ',') + seq!['\n'],
{
    reveal_strlit("L,");
    reveal_strlit("L");
    reveal_strlit(",");
    reveal_strlit("\n");
    let ps = command_pieces(Command::LoopCommand(x));
    let c = seq![','];
    lemma_join_take(ps, 1, ',');
    lemma_join_take(ps, 2, ',');
    assert(ps.take(3) =~= ps);
    assert(command_body_text(Command::LoopCommand(x)) =~= ps[0] + c + ps[1] + c + ps[2] + seq!['\n']);
}

proof fn lemma_triggercommand_text(x: TriggerCommand)
    ensures
        command_body_text(Command::TriggerCommand(x)) == join(command_pieces(Command::TriggerCommand(x)), ',') + seq!['\n'],
{
    reveal_strlit("T,");
    reveal_strlit("T");
    reveal_strlit(",");
    reveal_strlit("\n");
    let ps = command_pieces(Command::TriggerCommand(x));
    let c = seq![','];
    lemma_join_take(ps, 1, ',');
    lemma_join_take(ps, 2, ',');
    lemma_join_take(ps, 3, ',');
    assert(ps.take(4) =~= ps);
    assert(command_body_text(Command::TriggerCommand(x)) =~= ps[0] + c + ps[1] + c + ps[2] + c + ps[3] + seq!['\n']);
}

proof fn lemma_background_text(x: BackgroundEvent)
    ensures
        event_head_text(Event::Background(x)) == join(event_pieces(Event::Background(x)), ',') + seq!['\n'],
{
    reveal_strlit("Background,");
    reveal_strlit("Background");
    reveal_strlit(",");
    reveal_strlit("\n");
    let ps = event_pieces(Event::Background(x));
    let c = seq![','];
    lemma_join_take(ps, 1, ',');
    lemma_join_take(ps, 2, ',');
    lemma_join_take(ps, 3, ',');
    lemma_join_take(ps, 4, ',');
    assert(ps.take(5) =~= ps);
    assert(event_head_text(Event::Background(x)) =~= ps[0] + c + ps[1] + c + ps[2] + c + ps[3] + c + ps[4] + seq!['\n']);
}

proof fn lemma_video_text(x: VideoEvent)
    ensures
        event_head_text(Event::Video(x)) == join(event_pieces(Event::Video(x)), ',') + seq!['\n'],
{
    reveal_strlit("Video,");
    reveal_strlit("Video");
    reveal_strlit(",");
    reveal_strlit("\n");
    let ps = event_pieces(Event::Video(x));
    let c = seq![','];
    lemma_join_take(ps, 1, ',');
    lemma_join_take(ps, 2, ',');
    lemma_join_take(ps, 3, ',');
    lemma_join_take(ps, 4, ',');
    assert(ps.take(5) =~= ps);
    assert(event_head_text(Event::Video(x)) =~= ps[0] + c + ps[1] + c + ps[2] + c + ps[3] + c + ps[4] + seq!['\n']);
}

proof fn lemma_break_text(x: BreakEvent)
    ensures
        event_head_text(Event::Break(x)) == join(event_pieces(Event::Break(x)), ',') + seq!['\n'],
{
    reveal_strlit("Break,");
    reveal_strlit("Break");
    reveal_strlit(",");
    reveal_strlit("\n");
    let ps = event_pieces(Event::Break(x));
    let c = seq![','];
    lemma_join_take(ps, 1, ',');
    lemma_join_take(ps, 2, ',');
    assert(ps.take(3) =~= ps);
    assert(event_head_text(Event::Break(x)) =~= ps[0] + c + ps[1] + c + ps[2] + seq!['\n']);
}

proof fn lemma_sprite_text(x: Sprite)
    ensures
        event_head_text(Event::Sprite(x)) == join(event_pieces(Event::Sprite(x)), ',') + seq!['\n'],
{
    reveal_strlit("Sprite,");
    reveal_strlit("Sprite");
    reveal_strlit(",");
    reveal_strlit("\n");
    let ps = event_pieces(Event::Sprite(x));
    let c = seq![','];
    lemma_join_take(ps, 1, ',');
    lemma_join_take(ps, 2, ',');
    lemma_join_take(ps, 3, ',');
    lemma_join_take(ps, 4, ',');
    lemma_join_take(ps, 5, ',');
    assert(ps.take(6) =~= ps);
    assert(event_head_text(Event::Sprite(x)) =~= ps[0] + c + ps[1] + c + ps[2] + c + ps[3] + c + ps[4] + c + ps[5] + seq!['\n']);
}

proof fn lemma_animation_text(x: Animation)
    ensures
        event_head_text(Event::Animation(x)) == join(event_pieces(Event::Animation(x)), ',') + seq!['\n'],
{
    reveal_strlit("Animation,");
    reveal_strlit("Animation");
    reveal_strlit(",");
    reveal_strlit("\n");
    let ps = event_pieces(Event::Animation(x));
    let c = seq![','];
    lemma_join_take(ps, 1, ',');
    lemma_join_take(ps, 2, ',');
    lemma_join_take(ps, 3, ',');
    lemma_join_take(ps, 4, ',');
    lemma_join_take(ps, 5, ',');
    lemma_join_take(ps, 6, ',');
    lemma_join_take(ps, 7, ',');
    lemma_join_take(ps, 8, ',');
    assert(ps.take(9) =~= ps);
    assert(event_head_text(Event::Animation(x)) =~= ps[0] + c + ps[1] + c + ps[2] + c + ps[3] + c + ps[4] + c + ps[5] + c + ps[6] + c + ps[7] + c + ps[8] + seq!['\n']);
}

/// A command's line body is its pieces joined by commas.
pub proof fn lemma_command_body_text(c: Command)
    ensures
        command_body_text(c) == join(command_pieces(c), ',') + seq!['\n'],
{
    match c {
        Command::FadeCommand(x) => lemma_fadecommand_text(x),
        Command::MoveCommand(x) => lemma_movecommand_text(x),
        Command::MoveXCommand(x) => lemma_movexcommand_text(x),
        Command::MoveYCommand(x) => lemma_moveycommand_text(x),
        Command::ScaleCommand(x) => lemma_scalecommand_text(x),
        Command::VectorScaleCommand(x) => lemma_vectorscalecommand_text(x),
        Command::RotateCommand(x) => lemma_rotatecommand_text(x),
        Command::ColourCommand(x) => lemma_colourcommand_text(x),
        Command::ParameterCommand(x) => lemma_parametercommand_text(x),
        Command::LoopCommand(x) => lemma_loopcommand_text(x),
        Command::TriggerCommand(x) => lemma_triggercommand_text(x),
    }
}

/// An event's first line is its pieces joined by commas.
pub proof fn lemma_event_head_text(e: Event)
    ensures
        event_head_text(e) == join(event_pieces(e), ',') + seq!['\n'],
{
    match e {
        Event::Background(x) => lemma_background_text(x),
        Event::Video(x) => lemma_video_text(x),
        Event::Break(x) => lemma_break_text(x),
        Event::Sprite(x) => lemma_sprite_text(x),
        Event::Animation(x) => lemma_animation_text(x),
    }
}

/// A command whose own line reads back: its texts are clean fields without
/// `//`, its times and values read as numbers, and a trigger's type does not
/// start or end with `"`.
pub open spec fn command_head_clean(c: Command) -> bool {
    match c {
        Command::FadeCommand(x) => event_field(x.easing@) && event_number(x.start_time@) && event_number(x.end_time@) && event_number(x.start_opacity@) && event_number(x.end_opacity@),
        Command::MoveCommand(x) => event_field(x.easing@) && event_number(x.start_time@) && event_number(x.end_time@) && event_number(x.start_x@) && event_number(x.start_y@) && event_number(x.end_x@) && event_number(x.end_y@),
        Command::MoveXCommand(x) => event_field(x.easing@) && event_number(x.start_time@) && event_number(x.end_time@) && event_number(x.start_x@) && event_number(x.end_x@),
        Command::MoveYCommand(x) => event_field(x.easing@) && event_number(x.start_time@) && event_number(x.end_time@) && event_number(x.start_y@) && event_number(x.end_y@),
        Command::ScaleCommand(x) => event_field(x.easing@) && event_number(x.start_time@) && event_number(x.end_time@) && event_number(x.start_scale@) && event_number(x.end_scale@),
        Command::VectorScaleCommand(x) => event_field(x.easing@) && event_number(x.start_time@) && event_number(x.end_time@) && event_number(x.start_scale_x@) && event_number(x.start_scale_y@) && event_number(x.end_scale_x@) && event_number(x.end_scale_y@),
        Command::RotateCommand(x) => event_field(x.easing@) && event_number(x.start_time@) && event_number(x.end_time@) && event_number(x.start_angle@) && event_number(x.end_angle@),
        Command::ColourCommand(x) => event_field(x.easing@) && event_number(x.start_time@) && event_number(x.end_time@),
        Command::ParameterCommand(x) => event_field(x.easing@) && event_number(x.start_time@) && event_number(x.end_time@),
        Command::LoopCommand(x) => event_number(x.start_time@),
        Command::TriggerCommand(x) => event_field(x.trigger_type@) && event_number(x.start_time@)
            && event_number(x.end_time@) && unquoted(x.trigger_type@),
    }
}

/// A text that trimming `"` from its ends keeps.
pub open spec fn unquoted(s: Seq<char>) -> bool {
    s.len() == 0 || (s[0] != '"' && s.last() != '"')
}

/// An event whose own line reads back: its texts are clean fields without
/// `//`, and its times and positions read as numbers.
pub open spec fn event_head_clean(e: Event) -> bool {
    match e {
        Event::Background(x) => event_number(x.start_time@) && event_field(x.file_path@)
            && event_number(x.x@) && event_number(x.y@),
        Event::Video(x) => event_number(x.start_time@) && event_field(x.file_path@) && event_number(x.x@)
            && event_number(x.y@),
        Event::Break(x) => event_number(x.start_time@) && event_number(x.end_time@),
        Event::Sprite(x) => event_field(x.layer@) && event_field(x.origin@) && event_field(
            x.file_path@,
        ) && event_number(x.x@) && event_number(x.y@),
        Event::Animation(x) => event_field(x.layer@) && event_field(x.origin@) && event_field(
            x.file_path@,
        ) && event_number(x.x@) && event_number(x.y@) && event_number(x.frame_count@) && event_number(x.frame_delay@) && event_field(x.loop_type@),
    }
}

/// `d` is the command line head that `c`'s line reads as: the same kind
/// with the same values, and no inner commands yet.
pub open spec fn same_command_head(d: Command, c: Command) -> bool {
    match (d, c) {
        (Command::FadeCommand(a), Command::FadeCommand(b)) => a.easing@ == b.easing@ && a.start_time@ == b.start_time@ && a.end_time@ == b.end_time@ && a.start_opacity@ == b.start_opacity@ && a.end_opacity@ == b.end_opacity@,
        (Command::MoveCommand(a), Command::MoveCommand(b)) => a.easing@ == b.easing@ && a.start_time@ == b.start_time@ && a.end_time@ == b.end_time@ && a.start_x@ == b.start_x@ && a.start_y@ == b.start_y@ && a.end_x@ == b.end_x@ && a.end_y@ == b.end_y@,
        (Command::MoveXCommand(a), Command::MoveXCommand(b)) => a.easing@ == b.easing@ && a.start_time@ == b.start_time@ && a.end_time@ == b.end_time@ && a.start_x@ == b.start_x@ && a.end_x@ == b.end_x@,
        (Command::MoveYCommand(a), Command::MoveYCommand(b)) => a.easing@ == b.easing@ && a.start_time@ == b.start_time@ && a.end_time@ == b.end_time@ && a.start_y@ == b.start_y@ && a.end_y@ == b.end_y@,
        (Command::ScaleCommand(a), Command::ScaleCommand(b)) => a.easing@ == b.easing@ && a.start_time@ == b.start_time@ && a.end_time@ == b.end_time@ && a.start_scale@ == b.start_scale@ && a.end_scale@ == b.end_scale@,
        (Command::VectorScaleCommand(a), Command::VectorScaleCommand(b)) => a.easing@ == b.easing@ && a.start_time@ == b.start_time@ && a.end_time@ == b.end_time@ && a.start_scale_x@ == b.start_scale_x@ && a.start_scale_y@ == b.start_scale_y@ && a.end_scale_x@ == b.end_scale_x@ && a.end_scale_y@ == b.end_scale_y@,
        (Command::RotateCommand(a), Command::RotateCommand(b)) => a.easing@ == b.easing@ && a.start_time@ == b.start_time@ && a.end_time@ == b.end_time@ && a.start_angle@ == b.start_angle@ && a.end_angle@ == b.end_angle@,
        (Command::ColourCommand(a), Command::ColourCommand(b)) => a.easing@ == b.easing@ && a.start_time@ == b.start_time@ && a.end_time@ == b.end_time@ && a.start_r == b.start_r && a.start_g == b.start_g && a.start_b == b.start_b && a.end_r == b.end_r && a.end_g == b.end_g && a.end_b == b.end_b,
        (Command::ParameterCommand(a), Command::ParameterCommand(b)) => a.easing@ == b.easing@ && a.start_time@ == b.start_time@ && a.end_time@ == b.end_time@ && a.parameter == b.parameter,
        (Command::LoopCommand(a), Command::LoopCommand(b)) => a.start_time@ == b.start_time@ && a.loop_count == b.loop_count && a.inner_commands@.len() == 0,
        (Command::TriggerCommand(a), Command::TriggerCommand(b)) => a.trigger_type@ == b.trigger_type@ && a.start_time@ == b.start_time@ && a.end_time@ == b.end_time@ && a.inner_commands@.len() == 0,
        _ => false,
    }
}

/// `d` is the event head that `e`'s first line reads as: the same kind with
/// the same values, and no commands yet.
pub open spec fn same_event_head(d: Event, e: Event) -> bool {
    match (d, e) {
        (Event::Video(a), Event::Video(b)) => a.start_time@ == b.start_time@ && a.file_path@
            == b.file_path@ && a.x@ == b.x@ && a.y@ == b.y@,
        (Event::Break(a), Event::Break(b)) => a.start_time@ == b.start_time@ && a.end_time@
            == b.end_time@,
        (Event::Sprite(a), Event::Sprite(b)) => a.layer@ == b.layer@ && a.origin@ == b.origin@
            && a.file_path@ == b.file_path@ && a.x@ == b.x@ && a.y@ == b.y@ && a.commands@.len() == 0,
        (Event::Animation(a), Event::Animation(b)) => a.layer@ == b.layer@ && a.origin@
            == b.origin@ && a.file_path@ == b.file_path@ && a.x@ == b.x@ && a.y@ == b.y@
            && a.frame_count@ == b.frame_count@ && a.frame_delay@ == b.frame_delay@
            && a.loop_type@ == b.loop_type@ && a.commands@.len() == 0,
        _ => false,
    }
}

/// The type names are names: not empty, without separators or whitespace.
proof fn lemma_kind_names()
    ensures
        kind_name("F"@),
        kind_name("M"@),
        kind_name("MX"@),
        kind_name("MY"@),
        kind_name("S"@),
        kind_name("V"@),
        kind_name("R"@),
        kind_name("C"@),
        kind_name("P"@),
        kind_name("L"@),
        kind_name("T"@),
        kind_name("Video"@),
        kind_name("Break"@),
        kind_name("Sprite"@),
        kind_name("Animation"@),
{
    reveal_strlit("F");
    reveal_strlit("M");
    reveal_strlit("MX");
    reveal_strlit("MY");
    reveal_strlit("S");
    reveal_strlit("V");
    reveal_strlit("R");
    reveal_strlit("C");
    reveal_strlit("P");
    reveal_strlit("L");
    reveal_strlit("T");
    reveal_strlit("Video");
    reveal_strlit("Break");
    reveal_strlit("Sprite");
    reveal_strlit("Animation");
}

/// Trimming a character from the ends of a text that neither starts nor ends
/// with it keeps the text.
proof fn lemma_trim_char_keeps(s: Seq<char>, c: char)
    requires
        s.len() == 0 || (s[0] != c && s.last() != c),
    ensures
        trim_char(s, c) == s,
{
    lemma_lead_in(s, c, c, 0);
    assert(s.skip(0) =~= s);
    if s.len() > 0 {
        assert(s[s.len() - 0 - 1] == s.last());
    }
    lemma_trail_of(s, c, 0);
    assert(s.take(s.len() as int) =~= s);
}

/// The parameter names read back as their parameters.
proof fn lemma_parameter_text(pm: Parameter)
    ensures
        parameter_of(trim_char(parameter_text(pm), '"')) == Some(pm),
        event_field(parameter_text(pm)),
{
    reveal_strlit("H");
    reveal_strlit("V");
    reveal_strlit("A");
    lemma_trim_char_keeps(parameter_text(pm), '"');
}

proof fn lemma_fadecommand_decode(x: FadeCommand, t: nat, el: EventLine)
    requires
        command_head_clean(Command::FadeCommand(x)),
        t <= i32::MAX,
    ensures
        ({
            let c = Command::FadeCommand(x);
            let l = event_line_text(command_pieces(c), t);
            &&& event_line_ok(l)
            &&& event_line_matches(el, l) ==> (el matches EventLine::Command(cw) && cw.tab_count
                == t as i32 && same_command_head(cw.command, c))
        }),
{
    let c = Command::FadeCommand(x);
    let ps = command_pieces(c);
    let l = event_line_text(ps, t);
    lemma_type_names();
    lemma_kind_names();
    lemma_line_decode(ps, t);
    let p = split(l, ',');
    assert(p == tagged(ps, t));
    assert(p.len() == 6);
    assert(field(p, 1) == ps[1]);
    assert(field(p, 2) == ps[2]);
    assert(field(p, 3) == ps[3]);
    assert(field(p, 4) == ps[4]);
    assert(field(p, 5) == ps[5]);
}


proof fn lemma_movecommand_decode(x: MoveCommand, t: nat, el: EventLine)
    requires
        command_head_clean(Command::MoveCommand(x)),
        t <= i32::MAX,
    ensures
        ({
            let c = Command::MoveCommand(x);
            let l = event_line_text(command_pieces(c), t);
            &&& event_line_ok(l)
            &&& event_line_matches(el, l) ==> (el matches EventLine::Command(cw) && cw.tab_count
                == t as i32 && same_command_head(cw.command, c))
        }),
{
    let c = Command::MoveCommand(x);
    let ps = command_pieces(c);
    let l = event_line_text(ps, t);
    lemma_type_names();
    lemma_kind_names();
    lemma_line_decode(ps, t);
    let p = split(l, ',');
    assert(p == tagged(ps, t));
    assert(p.len() == 8);
    assert(field(p, 1) == ps[1]);
    assert(field(p, 2) == ps[2]);
    assert(field(p, 3) == ps[3]);
    assert(field(p, 4) == ps[4]);
    assert(field(p, 5) == ps[5]);
    assert(field(p, 6) == ps[6]);
    assert(field(p, 7) == ps[7]);
}


proof fn lemma_movexcommand_decode(x: MoveXCommand, t: nat, el: EventLine)
    requires
        command_head_clean(Command::MoveXCommand(x)),
        t <= i32::MAX,
    ensures
        ({
            let c = Command::MoveXCommand(x);
            let l = event_line_text(command_pieces(c), t);
            &&& event_line_ok(l)
            &&& event_line_matches(el, l) ==> (el matches EventLine::Command(cw) && cw.tab_count
                == t as i32 && same_command_head(cw.command, c))
        }),
{
    let c = Command::MoveXCommand(x);
    let ps = command_pieces(c);
    let l = event_line_text(ps, t);
    lemma_type_names();
    lemma_kind_names();
    lemma_line_decode(ps, t);
    let p = split(l, ',');
    assert(p == tagged(ps, t));
    assert(p.len() == 6);
    assert(field(p, 1) == ps[1]);
    assert(field(p, 2) == ps[2]);
    assert(field(p, 3) == ps[3]);
    assert(field(p, 4) == ps[4]);
    assert(field(p, 5) == ps[5]);
}


proof fn lemma_moveycommand_decode(x: MoveYCommand, t: nat, el: EventLine)
    requires
        command_head_clean(Command::MoveYCommand(x)),
        t <= i32::MAX,
    ensures
        ({
            let c = Command::MoveYCommand(x);
            let l = event_line_text(command_pieces(c), t);
            &&& event_line_ok(l)
            &&& event_line_matches(el, l) ==> (el matches EventLine::Command(cw) && cw.tab_count
                == t as i32 && same_command_head(cw.command, c))
        }),
{
    let c = Command::MoveYCommand(x);
    let ps = command_pieces(c);
    let l = event_line_text(ps, t);
    lemma_type_names();
    lemma_kind_names();
    lemma_line_decode(ps, t);
    let p = split(l, ',');
    assert(p == tagged(ps, t));
    assert(p.len() == 6);
    assert(field(p, 1) == ps[1]);
    assert(field(p, 2) == ps[2]);
    assert(field(p, 3) == ps[3]);
    assert(field(p, 4) == ps[4]);
    assert(field(p, 5) == ps[5]);
}


proof fn lemma_scalecommand_decode(x: ScaleCommand, t: nat, el: EventLine)
    requires
        command_head_clean(Command::ScaleCommand(x)),
        t <= i32::MAX,
    ensures
        ({
            let c = Command::ScaleCommand(x);
            let l = event_line_text(command_pieces(c), t);
            &&& event_line_ok(l)
            &&& event_line_matches(el, l) ==> (el matches EventLine::Command(cw) && cw.tab_count
                == t as i32 && same_command_head(cw.command, c))
        }),
{
    let c = Command::ScaleCommand(x);
    let ps = command_pieces(c);
    let l = event_line_text(ps, t);
    lemma_type_names();
    lemma_kind_names();
    lemma_line_decode(ps, t);
    let p = split(l, ',');
    assert(p == tagged(ps, t));
    assert(p.len() == 6);
    assert(field(p, 1) == ps[1]);
    assert(field(p, 2) == ps[2]);
    assert(field(p, 3) == ps[3]);
    assert(field(p, 4) == ps[4]);
    assert(field(p, 5) == ps[5]);
}


proof fn lemma_vectorscalecommand_decode(x: VectorScaleCommand, t: nat, el: EventLine)
    requires
        command_head_clean(Command::VectorScaleCommand(x)),
        t <= i32::MAX,
    ensures
        ({
            let c = Command::VectorScaleCommand(x);
            let l = event_line_text(command_pieces(c), t);
            &&& event_line_ok(l)
            &&& event_line_matches(el, l) ==> (el matches EventLine::Command(cw) && cw.tab_count
                == t as i32 && same_command_head(cw.command, c))
        }),
{
    let c = Command::VectorScaleCommand(x);
    let ps = command_pieces(c);
    let l = event_line_text(ps, t);
    lemma_type_names();
    lemma_kind_names();
    lemma_line_decode(ps, t);
    let p = split(l, ',');
    assert(p == tagged(ps, t));
    assert(p.len() == 8);
    assert(field(p, 1) == ps[1]);
    assert(field(p, 2) == ps[2]);
    assert(field(p, 3) == ps[3]);
    assert(field(p, 4) == ps[4]);
    assert(field(p, 5) == ps[5]);
    assert(field(p, 6) == ps[6]);
    assert(field(p, 7) == ps[7]);
}


proof fn lemma_rotatecommand_decode(x: RotateCommand, t: nat, el: EventLine)
    requires
        command_head_clean(Command::RotateCommand(x)),
        t <= i32::MAX,
    ensures
        ({
            let c = Command::RotateCommand(x);
            let l = event_line_text(command_pieces(c), t);
            &&& event_line_ok(l)
            &&& event_line_matches(el, l) ==> (el matches EventLine::Command(cw) && cw.tab_count
                == t as i32 && same_command_head(cw.command, c))
        }),
{
    let c = Command::RotateCommand(x);
    let ps = command_pieces(c);
    let l = event_line_text(ps, t);
    lemma_type_names();
    lemma_kind_names();
    lemma_line_decode(ps, t);
    let p = split(l, ',');
    assert(p == tagged(ps, t));
    assert(p.len() == 6);
    assert(field(p, 1) == ps[1]);
    assert(field(p, 2) == ps[2]);
    assert(field(p, 3) == ps[3]);
    assert(field(p, 4) == ps[4]);
    assert(field(p, 5) == ps[5]);
}


proof fn lemma_colourcommand_decode(x: ColourCommand, t: nat, el: EventLine)
    requires
        command_head_clean(Command::ColourCommand(x)),
        t <= i32::MAX,
    ensures
        ({
            let c = Command::ColourCommand(x);
            let l = event_line_text(command_pieces(c), t);
            &&& event_line_ok(l)
            &&& event_line_matches(el, l) ==> (el matches EventLine::Command(cw) && cw.tab_count
                == t as i32 && same_command_head(cw.command, c))
        }),
{
    let c = Command::ColourCommand(x);
    let ps = command_pieces(c);
    let l = event_line_text(ps, t);
    lemma_type_names();
    lemma_kind_names();
    lemma_int_field(x.start_r as int);
    lemma_int_text_event_field(x.start_r as int);
    lemma_int_field(x.start_g as int);
    lemma_int_text_event_field(x.start_g as int);
    lemma_int_field(x.start_b as int);
    lemma_int_text_event_field(x.start_b as int);
    lemma_int_field(x.end_r as int);
    lemma_int_text_event_field(x.end_r as int);
    lemma_int_field(x.end_g as int);
    lemma_int_text_event_field(x.end_g as int);
    lemma_int_field(x.end_b as int);
    lemma_int_text_event_field(x.end_b as int);
    lemma_line_decode(ps, t);
    let p = split(l, ',');
    assert(p == tagged(ps, t));
    assert(p.len() == 10);
    assert(field(p, 1) == ps[1]);
    assert(field(p, 2) == ps[2]);
    assert(field(p, 3) == ps[3]);
    assert(field(p, 4) == ps[4]);
    assert(field(p, 5) == ps[5]);
    assert(field(p, 6) == ps[6]);
    assert(field(p, 7) == ps[7]);
    assert(field(p, 8) == ps[8]);
    assert(field(p, 9) == ps[9]);
    lemma_int_text_parse(x.start_r as int, 0, 255);
    lemma_int_text_parse(x.start_g as int, 0, 255);
    lemma_int_text_parse(x.start_b as int, 0, 255);
    lemma_int_text_parse(x.end_r as int, 0, 255);
    lemma_int_text_parse(x.end_g as int, 0, 255);
    lemma_int_text_parse(x.end_b as int, 0, 255);
}


proof fn lemma_parametercommand_decode(x: ParameterCommand, t: nat, el: EventLine)
    requires
        command_head_clean(Command::ParameterCommand(x)),
        t <= i32::MAX,
    ensures
        ({
            let c = Command::ParameterCommand(x);
            let l = event_line_text(command_pieces(c), t);
            &&& event_line_ok(l)
            &&& event_line_matches(el, l) ==> (el matches EventLine::Command(cw) && cw.tab_count
                == t as i32 && same_command_head(cw.command, c))
        }),
{
    let c = Command::ParameterCommand(x);
    let ps = command_pieces(c);
    let l = event_line_text(ps, t);
    lemma_type_names();
    lemma_kind_names();
    lemma_parameter_text(x.parameter);
    lemma_line_decode(ps, t);
    let p = split(l, ',');
    assert(p == tagged(ps, t));
    assert(p.len() == 5);
    assert(field(p, 1) == ps[1]);
    assert(field(p, 2) == ps[2]);
    assert(field(p, 3) == ps[3]);
    assert(field(p, 4) == ps[4]);
}


proof fn lemma_loopcommand_decode(x: LoopCommand, t: nat, el: EventLine)
    requires
        command_head_clean(Command::LoopCommand(x)),
        t <= i32::MAX,
    ensures
        ({
            let c = Command::LoopCommand(x);
            let l = event_line_text(command_pieces(c), t);
            &&& event_line_ok(l)
            &&& event_line_matches(el, l) ==> (el matches EventLine::Command(cw) && cw.tab_count
                == t as i32 && same_command_head(cw.command, c))
        }),
{
    let c = Command::LoopCommand(x);
    let ps = command_pieces(c);
    let l = event_line_text(ps, t);
    lemma_type_names();
    lemma_kind_names();
    lemma_int_field(x.loop_count as int);
    lemma_int_text_event_field(x.loop_count as int);
    lemma_line_decode(ps, t);
    let p = split(l, ',');
    assert(p == tagged(ps, t));
    assert(p.len() == 3);
    assert(field(p, 1) == ps[1]);
    assert(field(p, 2) == ps[2]);
    lemma_int_text_parse(x.loop_count as int, i32::MIN as int, i32::MAX as int);
}


proof fn lemma_triggercommand_decode(x: TriggerCommand, t: nat, el: EventLine)
    requires
        command_head_clean(Command::TriggerCommand(x)),
        t <= i32::MAX,
    ensures
        ({
            let c = Command::TriggerCommand(x);
            let l = event_line_text(command_pieces(c), t);
            &&& event_line_ok(l)
            &&& event_line_matches(el, l) ==> (el matches EventLine::Command(cw) && cw.tab_count
                == t as i32 && same_command_head(cw.command, c))
        }),
{
    let c = Command::TriggerCommand(x);
    let ps = command_pieces(c);
    let l = event_line_text(ps, t);
    lemma_type_names();
    lemma_kind_names();
    lemma_line_decode(ps, t);
    let p = split(l, ',');
    assert(p == tagged(ps, t));
    assert(p.len() == 4);
    assert(field(p, 1) == ps[1]);
    assert(field(p, 2) == ps[2]);
    assert(field(p, 3) == ps[3]);
    lemma_trim_char_keeps(x.trigger_type@, '"');
}


/// A command's own line, indented by `t`, is accepted, and whatever line it
/// reads as is that command's head at indentation `t`.
pub proof fn lemma_command_decode(c: Command, t: nat, el: EventLine)
    requires
        command_head_clean(c),
        t <= i32::MAX,
    ensures
        event_line_ok(event_line_text(command_pieces(c), t)),
        event_line_matches(el, event_line_text(command_pieces(c), t)) ==> (el matches EventLine::Command(
            cw,
        ) && cw.tab_count == t as i32 && same_command_head(cw.command, c)),
{
    match c {
        Command::FadeCommand(x) => lemma_fadecommand_decode(x, t, el),
        Command::MoveCommand(x) => lemma_movecommand_decode(x, t, el),
        Command::MoveXCommand(x) => lemma_movexcommand_decode(x, t, el),
        Command::MoveYCommand(x) => lemma_moveycommand_decode(x, t, el),
        Command::ScaleCommand(x) => lemma_scalecommand_decode(x, t, el),
        Command::VectorScaleCommand(x) => lemma_vectorscalecommand_decode(x, t, el),
        Command::RotateCommand(x) => lemma_rotatecommand_decode(x, t, el),
        Command::ColourCommand(x) => lemma_colourcommand_decode(x, t, el),
        Command::ParameterCommand(x) => lemma_parametercommand_decode(x, t, el),
        Command::LoopCommand(x) => lemma_loopcommand_decode(x, t, el),
        Command::TriggerCommand(x) => lemma_triggercommand_decode(x, t, el),
    }
}


proof fn lemma_video_decode(x: VideoEvent, el: EventLine)
    requires
        event_head_clean(Event::Video(x)),
    ensures
        ({
            let e = Event::Video(x);
            let l = event_line_text(event_pieces(e), 0);
            &&& event_line_ok(l)
            &&& event_line_matches(el, l) ==> (el matches EventLine::Event(d) && same_event_head(d, e))
        }),
{
    let e = Event::Video(x);
    let ps = event_pieces(e);
    let l = event_line_text(ps, 0);
    lemma_type_names();
    lemma_kind_names();
    lemma_line_decode(ps, 0);
    let p = split(l, ',');
    assert(p == tagged(ps, 0));
    assert(p.len() == 5);
    assert(field(p, 1) == ps[1]);
    assert(field(p, 2) == ps[2]);
    assert(field(p, 3) == ps[3]);
    assert(field(p, 4) == ps[4]);
}


proof fn lemma_break_decode(x: BreakEvent, el: EventLine)
    requires
        event_head_clean(Event::Break(x)),
    ensures
        ({
            let e = Event::Break(x);
            let l = event_line_text(event_pieces(e), 0);
            &&& event_line_ok(l)
            &&& event_line_matches(el, l) ==> (el matches EventLine::Event(d) && same_event_head(d, e))
        }),
{
    let e = Event::Break(x);
    let ps = event_pieces(e);
    let l = event_line_text(ps, 0);
    lemma_type_names();
    lemma_kind_names();
    lemma_line_decode(ps, 0);
    let p = split(l, ',');
    assert(p == tagged(ps, 0));
    assert(p.len() == 3);
    assert(field(p, 1) == ps[1]);
    assert(field(p, 2) == ps[2]);
}


proof fn lemma_sprite_decode(x: Sprite, el: EventLine)
    requires
        event_head_clean(Event::Sprite(x)),
    ensures
        ({
            let e = Event::Sprite(x);
            let l = event_line_text(event_pieces(e), 0);
            &&& event_line_ok(l)
            &&& event_line_matches(el, l) ==> (el matches EventLine::Event(d) && same_event_head(d, e))
        }),
{
    let e = Event::Sprite(x);
    let ps = event_pieces(e);
    let l = event_line_text(ps, 0);
    lemma_type_names();
    lemma_kind_names();
    lemma_line_decode(ps, 0);
    let p = split(l, ',');
    assert(p == tagged(ps, 0));
    assert(p.len() == 6);
    assert(field(p, 1) == ps[1]);
    assert(field(p, 2) == ps[2]);
    assert(field(p, 3) == ps[3]);
    assert(field(p, 4) == ps[4]);
    assert(field(p, 5) == ps[5]);
}


proof fn lemma_animation_decode(x: Animation, el: EventLine)
    requires
        event_head_clean(Event::Animation(x)),
    ensures
        ({
            let e = Event::Animation(x);
            let l = event_line_text(event_pieces(e), 0);
            &&& event_line_ok(l)
            &&& event_line_matches(el, l) ==> (el matches EventLine::Event(d) && same_event_head(d, e))
        }),
{
    let e = Event::Animation(x);
    let ps = event_pieces(e);
    let l = event_line_text(ps, 0);
    lemma_type_names();
    lemma_kind_names();
    lemma_line_decode(ps, 0);
    let p = split(l, ',');
    assert(p == tagged(ps, 0));
    assert(p.len() == 9);
    assert(field(p, 1) == ps[1]);
    assert(field(p, 2) == ps[2]);
    assert(field(p, 3) == ps[3]);
    assert(field(p, 4) == ps[4]);
    assert(field(p, 5) == ps[5]);
    assert(field(p, 6) == ps[6]);
    assert(field(p, 7) == ps[7]);
    assert(field(p, 8) == ps[8]);
}


/// An event's first line (other than a background's) is accepted, and
/// whatever line it reads as is that event's head.
pub proof fn lemma_event_decode(e: Event, el: EventLine)
    requires
        event_head_clean(e),
        !(e is Background),
    ensures
        event_line_ok(event_line_text(event_pieces(e), 0)),
        event_line_matches(el, event_line_text(event_pieces(e), 0)) ==> (el matches EventLine::Event(d)
            && same_event_head(d, e)),
{
    match e {
        Event::Background(x) => {},
        Event::Video(x) => lemma_video_decode(x, el),
        Event::Break(x) => lemma_break_decode(x, el),
        Event::Sprite(x) => lemma_sprite_decode(x, el),
        Event::Animation(x) => lemma_animation_decode(x, el),
    }
}

/// The pieces of a clean command's line: a type name, then pieces that read
/// back.
proof fn lemma_command_pieces_clean(c: Command)
    requires
        command_head_clean(c),
    ensures
        command_pieces(c).len() >= 3,
        kind_name(command_pieces(c)[0]),
        forall|j: int| 1 <= j < command_pieces(c).len() ==> event_field(#[trigger] command_pieces(c)[j]),
{
    lemma_kind_names();
    let ps = command_pieces(c);
    match c {
        Command::ColourCommand(x) => {
            lemma_int_text_event_field(x.start_r as int);
            lemma_int_text_event_field(x.start_g as int);
            lemma_int_text_event_field(x.start_b as int);
            lemma_int_text_event_field(x.end_r as int);
            lemma_int_text_event_field(x.end_g as int);
            lemma_int_text_event_field(x.end_b as int);
        },
        Command::ParameterCommand(x) => {
            lemma_parameter_text(x.parameter);
        },
        Command::LoopCommand(x) => {
            lemma_int_text_event_field(x.loop_count as int);
        },
        _ => {},
    }
    assert forall|j: int| 1 <= j < ps.len() implies event_field(#[trigger] ps[j]) by {
        if j == 1 {
            assert(event_field(ps[1]));
        } else if j == 2 {
            assert(event_field(ps[2]));
        } else if j == 3 {
            assert(event_field(ps[3]));
        } else if j == 4 {
            assert(event_field(ps[4]));
        } else if j == 5 {
            assert(event_field(ps[5]));
        } else if j == 6 {
            assert(event_field(ps[6]));
        } else if j == 7 {
            assert(event_field(ps[7]));
        } else if j == 8 {
            assert(event_field(ps[8]));
        } else {
            assert(event_field(ps[9]));
        }
    }
}

/// The pieces of a clean event's first line (other than a background's): a
/// type name, then pieces that read back.
proof fn lemma_event_pieces_clean(e: Event)
    requires
        event_head_clean(e),
        !(e is Background),
    ensures
        event_pieces(e).len() >= 3,
        kind_name(event_pieces(e)[0]),
        forall|j: int| 1 <= j < event_pieces(e).len() ==> event_field(#[trigger] event_pieces(e)[j]),
{
    lemma_kind_names();
    let ps = event_pieces(e);
    assert forall|j: int| 1 <= j < ps.len() implies event_field(#[trigger] ps[j]) by {
        if j == 1 {
            assert(event_field(ps[1]));
        } else if j == 2 {
            assert(event_field(ps[2]));
        } else if j == 3 {
            assert(event_field(ps[3]));
        } else if j == 4 {
            assert(event_field(ps[4]));
        } else if j == 5 {
            assert(event_field(ps[5]));
        } else if j == 6 {
            assert(event_field(ps[6]));
        } else if j == 7 {
            assert(event_field(ps[7]));
        } else {
            assert(event_field(ps[8]));
        }
    }
}

/// A clean command's line, indented by `t`, is one line, not empty, and its
/// own content.
pub proof fn lemma_command_line_shape(c: Command, t: nat)
    requires
        command_head_clean(c),
        t <= i32::MAX,
    ensures
        one_line(event_line_text(command_pieces(c), t)),
        strip_cr(event_line_text(command_pieces(c), t)) == event_line_text(command_pieces(c), t),
        event_content(event_line_text(command_pieces(c), t)) == event_line_text(command_pieces(c), t),
        event_line_text(command_pieces(c), t).len() > 0,
        is_trimmed(event_line_text(command_pieces(c), t)),
{
    lemma_command_pieces_clean(c);
    lemma_line_decode(command_pieces(c), t);
}

/// A clean event's first line (other than a background's) is one line, not
/// empty, and its own content.
pub proof fn lemma_event_line_shape(e: Event)
    requires
        event_head_clean(e),
        !(e is Background),
    ensures
        one_line(event_line_text(event_pieces(e), 0)),
        strip_cr(event_line_text(event_pieces(e), 0)) == event_line_text(event_pieces(e), 0),
        event_content(event_line_text(event_pieces(e), 0)) == event_line_text(event_pieces(e), 0),
        event_line_text(event_pieces(e), 0).len() > 0,
        is_trimmed(event_line_text(event_pieces(e), 0)),
{
    lemma_event_pieces_clean(e);
    lemma_line_decode(event_pieces(e), 0);
}

/// The text of an integer is a piece of an events line.
proof fn lemma_int_text_event_field(n: int)
    ensures
        event_field(int_text(n)),
{
    lemma_int_field(n);
    lemma_int_text_digits(n);
}

/// The text of an integer has no `/`.
proof fn lemma_int_text_digits(n: int)
    ensures
        no_comment(int_text(n)),
{
    let m: nat = if n < 0 {
        (-n) as nat
    } else {
        n as nat
    };
    lemma_nat_text(m);
    let t = int_text(n);
    assert forall|i: int| 0 <= i < t.len() implies t[i] != '/' by {
        if n < 0 && i == 0 {
            assert(t[0] == '-');
        } else if n < 0 {
            assert(t[i] == nat_text(m)[i - 1]);
        }
    }
}

} // verus!
